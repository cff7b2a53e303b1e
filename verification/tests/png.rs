use png_msg::chunk::Chunk;
use png_msg::chunk_type::ChunkType;
use png_msg::error::Error;
use png_msg::png::Png;
use std::convert::TryFrom;
use std::str::FromStr;

const SIGNATURE: [u8; 8] = [0x89, b'P', b'N', b'G', 0x0D, 0x0A, 0x1A, 0x0A];

fn chunk(code: &str, data: &str) -> Chunk {
    Chunk::new(ChunkType::from_str(code).unwrap(), data.as_bytes().to_vec())
}

fn sample_chunks() -> Vec<Chunk> {
    vec![
        chunk("FrSt", "I am the first chunk"),
        chunk("miDl", "I am another chunk"),
        chunk("LASt", "I am the last chunk"),
    ]
}

fn stream(chunks: &[Chunk]) -> Vec<u8> {
    let mut bytes = SIGNATURE.to_vec();
    for chunk in chunks {
        bytes.extend_from_slice(&chunk.as_bytes());
    }
    bytes
}

fn read(bytes: &[u8]) -> Result<Png, Error> {
    Png::try_from(bytes)
}

fn types(png: &Png) -> Vec<String> {
    png.chunks().iter().map(|c| c.chunk_type().to_string()).collect()
}

#[test]
fn the_signature() {
    assert_eq!(Png::STANDARD_HEADER, SIGNATURE);
    assert_eq!(Png::from_chunks(Vec::new()).header(), &SIGNATURE);
}

#[test]
fn the_terminal_code() {
    assert_eq!(&Png::TERMINAL_CODE, b"IEND");
    assert_eq!(ChunkType::from_str("IEND").unwrap().bytes(), Png::TERMINAL_CODE);
}

#[test]
fn from_chunks_keeps_the_order_and_checks_nothing() {
    let png = Png::from_chunks(sample_chunks());
    assert_eq!(png.chunks(), sample_chunks().as_slice());
    let odd = vec![chunk("IEND", ""), chunk("IEND", "again"), chunk("IHDR", "late")];
    let png = Png::from_chunks(odd);
    assert_eq!(types(&png), ["IEND", "IEND", "IHDR"]);
}

#[test]
fn a_stream_reads_into_its_chunks() {
    let png = read(&stream(&sample_chunks())).unwrap();
    assert_eq!(png.chunks().len(), 3);
    assert_eq!(png, Png::from_chunks(sample_chunks()));
}

#[test]
fn the_signature_alone_is_an_empty_container() {
    let png = read(&SIGNATURE).unwrap();
    assert_eq!(png.chunks().len(), 0);
    assert_eq!(png.as_bytes(), SIGNATURE);
}

#[test]
fn a_wrong_or_short_signature_is_refused() {
    assert_eq!(read(&[]), Err(Error::BadSignature));
    for have in 0..8 {
        assert_eq!(read(&SIGNATURE[..have]), Err(Error::BadSignature));
    }
    for at in 0..8 {
        let mut bytes = stream(&sample_chunks());
        bytes[at] ^= 1;
        assert_eq!(read(&bytes), Err(Error::BadSignature));
    }
    let bytes = [13, 80, 78, 71, 13, 10, 26, 10];
    assert_eq!(read(&bytes), Err(Error::BadSignature));
}

#[test]
fn reading_stops_after_the_terminal_chunk() {
    let chunks = vec![chunk("IHDR", "head"), chunk("IEND", ""), chunk("RuSt", "hidden")];
    let mut bytes = stream(&chunks);
    let png = read(&bytes).unwrap();
    assert_eq!(types(&png), ["IHDR", "IEND"]);
    // Whatever follows the terminal chunk is not read, not even to find it broken.
    bytes.extend_from_slice(&[1, 2, 3]);
    let png = read(&bytes).unwrap();
    assert_eq!(types(&png), ["IHDR", "IEND"]);
    let bytes = stream(&[chunk("IEND", "")]);
    assert_eq!(read(&bytes).unwrap().chunks().len(), 1);
}

#[test]
fn a_broken_chunk_fails_the_whole_with_its_offset() {
    let chunks = sample_chunks();
    let first = chunks[0].as_bytes().len();
    let second = chunks[1].as_bytes().len();
    let good = stream(&chunks);

    let mut bytes = good.clone();
    let last = bytes.len() - 1;
    bytes[last] ^= 0x40;
    assert_eq!(
        read(&bytes),
        Err(Error::CrcMismatch { offset: 8 + first + second })
    );

    let mut bytes = good.clone();
    bytes[8 + first + 8] ^= 0x01;
    assert_eq!(read(&bytes), Err(Error::CrcMismatch { offset: 8 + first }));

    let mut bytes = good.clone();
    bytes[8 + 8] ^= 0x01;
    assert_eq!(read(&bytes), Err(Error::CrcMismatch { offset: 8 }));

    let mut bytes = good.clone();
    bytes[8 + first + 4] = b'1';
    assert_eq!(
        read(&bytes),
        Err(Error::InvalidChunkType { offset: 8 + first })
    );

    let mut bytes = good.clone();
    bytes[8 + 6] = b's';
    assert_eq!(read(&bytes), Err(Error::InvalidChunkType { offset: 8 }));
}

#[test]
fn a_stream_that_ends_inside_a_chunk_is_too_short() {
    let chunks = sample_chunks();
    let first = chunks[0].as_bytes().len();
    let second = chunks[1].as_bytes().len();
    let good = stream(&chunks);
    for have in 9..good.len() {
        let expected = if have < 8 + first {
            Err(Error::TooShort { offset: 8 })
        } else if have == 8 + first {
            Ok(Png::from_chunks(vec![chunk("FrSt", "I am the first chunk")]))
        } else if have < 8 + first + second {
            Err(Error::TooShort { offset: 8 + first })
        } else if have == 8 + first + second {
            Ok(Png::from_chunks(vec![
                chunk("FrSt", "I am the first chunk"),
                chunk("miDl", "I am another chunk"),
            ]))
        } else {
            Err(Error::TooShort { offset: 8 + first + second })
        };
        assert_eq!(read(&good[..have]), expected);
    }
}

#[test]
fn append_goes_before_a_trailing_terminal_chunk() {
    let mut png = Png::from_chunks(vec![chunk("IHDR", "head"), chunk("IEND", "")]);
    png.append_chunk(chunk("RuSt", "message"));
    assert_eq!(types(&png), ["IHDR", "RuSt", "IEND"]);
    png.append_chunk(chunk("ruSt", "more"));
    assert_eq!(types(&png), ["IHDR", "RuSt", "ruSt", "IEND"]);
    let bytes = png.as_bytes();
    let terminal = chunk("IEND", "").as_bytes();
    assert_eq!(&bytes[bytes.len() - 12..], terminal.as_slice());
    let before = chunk("ruSt", "more").as_bytes();
    assert_eq!(
        &bytes[bytes.len() - 12 - before.len()..bytes.len() - 12],
        before.as_slice()
    );
}

#[test]
fn append_goes_to_the_end_without_a_trailing_terminal_chunk() {
    let mut png = Png::from_chunks(Vec::new());
    png.append_chunk(chunk("RuSt", "one"));
    assert_eq!(types(&png), ["RuSt"]);
    png.append_chunk(chunk("miDl", "two"));
    assert_eq!(types(&png), ["RuSt", "miDl"]);
    // A terminal chunk that is not the last one does not count.
    let mut png = Png::from_chunks(vec![chunk("IEND", ""), chunk("LASt", "x")]);
    png.append_chunk(chunk("RuSt", "y"));
    assert_eq!(types(&png), ["IEND", "LASt", "RuSt"]);
}

#[test]
fn append_to_a_lone_terminal_chunk() {
    let mut png = Png::from_chunks(vec![chunk("IEND", "")]);
    png.append_chunk(chunk("RuSt", "y"));
    assert_eq!(types(&png), ["RuSt", "IEND"]);
    // Appending a terminal chunk puts it before the one that is there.
    png.append_chunk(chunk("IEND", "second"));
    assert_eq!(types(&png), ["RuSt", "IEND", "IEND"]);
    assert_eq!(png.chunks()[1].data(), b"second");
    assert_eq!(png.chunks()[2].data(), b"");
}

#[test]
fn lookup_finds_the_first_of_a_type() {
    let mut chunks = sample_chunks();
    chunks.push(chunk("miDl", "the second of its type"));
    let png = Png::from_chunks(chunks);
    let found = png.chunk_by_type("miDl").unwrap();
    assert_eq!(found.data_as_string().unwrap(), "I am another chunk");
    assert_eq!(png.chunk_by_type("FrSt").unwrap().data(), b"I am the first chunk");
    assert!(png.chunk_by_type("none").is_none());
    assert!(png.chunk_by_type("midl").is_none());
    assert!(png.chunk_by_type("").is_none());
    assert!(png.chunk_by_type("miDlx").is_none());
    assert!(Png::from_chunks(Vec::new()).chunk_by_type("miDl").is_none());
}

#[test]
fn lookup_goes_by_the_text_of_the_type_code() {
    let broken = Chunk::new(ChunkType::new_unchecked([0xFF, 0, 0, 0]), b"odd".to_vec());
    let png = Png::from_chunks(vec![chunk("RuSt", "x"), broken]);
    let found = png.chunk_by_type("Invalid UTF-8").unwrap();
    assert_eq!(found.data(), b"odd");
}

#[test]
fn remove_takes_the_first_of_a_type_only() {
    let mut chunks = sample_chunks();
    chunks.insert(0, chunk("miDl", "the very first"));
    chunks.push(chunk("miDl", "the last"));
    let mut png = Png::from_chunks(chunks);
    let removed = png.remove_first_chunk("miDl").unwrap();
    assert_eq!(removed.data_as_string().unwrap(), "the very first");
    assert_eq!(types(&png), ["FrSt", "miDl", "LASt", "miDl"]);
    let removed = png.remove_first_chunk("miDl").unwrap();
    assert_eq!(removed.data_as_string().unwrap(), "I am another chunk");
    assert_eq!(types(&png), ["FrSt", "LASt", "miDl"]);
    let removed = png.remove_first_chunk("miDl").unwrap();
    assert_eq!(removed.data_as_string().unwrap(), "the last");
    assert_eq!(types(&png), ["FrSt", "LASt"]);
}

#[test]
fn remove_of_an_absent_type_changes_nothing() {
    let mut png = Png::from_chunks(sample_chunks());
    assert_eq!(
        png.remove_first_chunk("none"),
        Err(Error::ChunkNotFound { code: String::from("none") })
    );
    assert_eq!(png.chunks().len(), 3);
    assert_eq!(png, Png::from_chunks(sample_chunks()));
    let mut empty = Png::from_chunks(Vec::new());
    assert_eq!(
        empty.remove_first_chunk("RuSt"),
        Err(Error::ChunkNotFound { code: String::from("RuSt") })
    );
    assert_eq!(empty.chunks().len(), 0);
}

#[test]
fn written_stream_is_signature_and_frames() {
    let png = Png::from_chunks(sample_chunks());
    assert_eq!(png.as_bytes(), stream(&sample_chunks()));
    assert_eq!(Png::from_chunks(Vec::new()).as_bytes(), SIGNATURE);
}

#[test]
fn what_was_read_is_written_back() {
    let mut chunks = sample_chunks();
    let bytes = stream(&chunks);
    assert_eq!(read(&bytes).unwrap().as_bytes(), bytes);
    chunks.insert(0, chunk("IHDR", "head"));
    chunks.push(chunk("IEND", ""));
    let bytes = stream(&chunks);
    assert_eq!(read(&bytes).unwrap().as_bytes(), bytes);
    // With bytes after the terminal chunk, what is written is what was read of them.
    let mut longer = bytes.clone();
    longer.extend_from_slice(b"trailing");
    assert_eq!(read(&longer).unwrap().as_bytes(), bytes);
}

#[test]
fn what_was_written_is_read_back() {
    let mut png = Png::from_chunks(sample_chunks());
    png.append_chunk(chunk("IEND", ""));
    png.append_chunk(chunk("RuSt", "message"));
    let back = read(&png.as_bytes()).unwrap();
    assert_eq!(back, png);
    assert_eq!(
        back.chunk_by_type("RuSt").unwrap().data_as_string().unwrap(),
        "message"
    );
}

#[test]
fn text_of_a_container() {
    let broken = Chunk::new(ChunkType::from_str("RuSt").unwrap(), vec![0xFF, 0xFE]);
    let png = Png::from_chunks(vec![chunk("FrSt", "one"), broken, chunk("IEND", "")]);
    assert_eq!(png.to_string(), "FrSt: one\nRuSt: Invalid UTF-8\nIEND: \n");
    assert_eq!(Png::from_chunks(Vec::new()).to_string(), "");
}
