use png_msg::application::{Action, Application, Message, Outcome};

fn filled() -> Application {
    let mut form = Application::default();
    form.complete(Outcome::Picked(Some(String::from("/tmp/picture.png"))));
    form.update(Message::ChunkTypeInputChanged(String::from("ruSt")));
    form.update(Message::ChunkDataInputChanged(String::from("Hello, world!")));
    form
}

#[test]
fn a_new_form_is_empty() {
    let form = Application::default();
    assert_eq!(form.file_path(), "");
    assert_eq!(form.chunk_type(), "");
    assert_eq!(form.chunk_data(), "");
    assert_eq!(form.output_msg(), "");
    assert!(!form.able());
    assert!(!form.encode_able());
    assert!(!form.print_able());
}

#[test]
fn buttons_ask_for_their_work_and_change_nothing() {
    let mut form = filled();
    assert_eq!(form.update(Message::FileButtonPressed), Action::PickFile);
    assert_eq!(form.update(Message::EncodeButtonPressed), Action::Encode);
    assert_eq!(form.update(Message::DecodeButtonPressed), Action::Decode);
    assert_eq!(form.update(Message::RemoveButtonPressed), Action::Remove);
    assert_eq!(form.update(Message::PrintButtonPressed), Action::Print);
    assert_eq!(form.file_path(), "/tmp/picture.png");
    assert_eq!(form.chunk_type(), "ruSt");
    assert_eq!(form.chunk_data(), "Hello, world!");
    assert_eq!(form.output_msg(), "");
}

#[test]
fn the_type_field_takes_up_to_four_letters() {
    let mut form = Application::default();
    for text in ["r", "ru", "ruS", "ruSt", "RUST", "rust", ""] {
        let action = form.update(Message::ChunkTypeInputChanged(String::from(text)));
        assert_eq!(action, Action::Nothing);
        assert_eq!(form.chunk_type(), text);
    }
    form.update(Message::ChunkTypeInputChanged(String::from("ruSt")));
    for text in ["ruStx", "ru1t", "r t", "ru-t", "é", "rué", "ruSé", "1", "@", "[", "`", "{"] {
        let action = form.update(Message::ChunkTypeInputChanged(String::from(text)));
        assert_eq!(action, Action::Nothing);
        assert_eq!(form.chunk_type(), "ruSt");
    }
}

#[test]
fn the_message_field_takes_anything() {
    let mut form = Application::default();
    for text in ["Hello, world!", "", "é1 \n", "a very long message as well"] {
        let action = form.update(Message::ChunkDataInputChanged(String::from(text)));
        assert_eq!(action, Action::Nothing);
        assert_eq!(form.chunk_data(), text);
    }
}

#[test]
fn a_picked_file_becomes_the_file_of_the_form() {
    let mut form = filled();
    form.complete(Outcome::Picked(None));
    assert_eq!(form.file_path(), "/tmp/picture.png");
    form.complete(Outcome::Picked(Some(String::from("other.png"))));
    assert_eq!(form.file_path(), "other.png");
    assert_eq!(form.chunk_type(), "ruSt");
    assert_eq!(form.output_msg(), "");
}

#[test]
fn finished_work_is_reported() {
    let mut form = filled();
    form.complete(Outcome::Encoded(Ok(String::from("/tmp/ruSt.png"))));
    assert_eq!(form.output_msg(), "Chunk encoded to /tmp/ruSt.png");
    form.complete(Outcome::Decoded(Ok(String::from("Hello, world!"))));
    assert_eq!(form.output_msg(), "Chunk data: Hello, world!");
    form.complete(Outcome::Removed(Ok(String::from("/tmp/picture.png"))));
    assert_eq!(form.output_msg(), "Chunk removed from /tmp/picture.png");
    form.complete(Outcome::Printed(Ok(String::from("IEND: \n"))));
    assert_eq!(form.output_msg(), "PNG data: IEND: \n");
    assert_eq!(form.file_path(), "/tmp/picture.png");
    assert_eq!(form.chunk_type(), "ruSt");
    assert_eq!(form.chunk_data(), "Hello, world!");
}

#[test]
fn failed_work_is_reported_as_an_error() {
    let mut form = filled();
    form.complete(Outcome::Encoded(Err(String::from("Invalid CRC"))));
    assert_eq!(form.output_msg(), "Error: Invalid CRC");
    form.complete(Outcome::Decoded(Err(String::from("Chunk Type not found."))));
    assert_eq!(form.output_msg(), "Error: Chunk Type not found.");
    form.complete(Outcome::Removed(Err(String::new())));
    assert_eq!(form.output_msg(), "Error: ");
    form.complete(Outcome::Printed(Err(String::from("no such file"))));
    assert_eq!(form.output_msg(), "Error: no such file");
}

#[test]
fn what_is_on_offer_follows_the_fields() {
    let mut form = Application::default();
    form.complete(Outcome::Picked(Some(String::from("a.png"))));
    assert!(form.print_able() && !form.able() && !form.encode_able());
    form.update(Message::ChunkTypeInputChanged(String::from("r")));
    assert!(form.print_able() && form.able() && !form.encode_able());
    form.update(Message::ChunkDataInputChanged(String::from("m")));
    assert!(form.print_able() && form.able() && form.encode_able());
    form.update(Message::ChunkTypeInputChanged(String::new()));
    assert!(form.print_able() && !form.able() && !form.encode_able());
    let mut form = Application::default();
    form.update(Message::ChunkTypeInputChanged(String::from("ruSt")));
    form.update(Message::ChunkDataInputChanged(String::from("m")));
    assert!(!form.print_able() && !form.able() && !form.encode_able());
}
