use langtools::domain::source_location::SourceLocation;
use langtools::messaging::message::{Message, MessageSource, Severity};
use langtools::messaging::message_context::MessageContext;

#[test]
fn test_message_context_simple() {
    let mut message_context = MessageContext::new();
    message_context.emit(Message::new_global(Severity::Warning, String::from("a")));
    message_context.emit(Message::new_global(Severity::Warning, String::from("b")));
    message_context.emit(Message::new_global(Severity::Info, String::from("c")));

    assert_eq!(message_context.count_with_severity(Severity::Warning), 2);
    assert_eq!(message_context.count_with_severity(Severity::Info), 1);
    assert_eq!(message_context.count_with_severity(Severity::Error), 0);
}

#[test]
fn messages_keep_emission_order() {
    let mut message_context = MessageContext::new();
    message_context.emit(Message::new_location(
        SourceLocation::new(String::from("f"), 0, 1, 1),
        Severity::Error,
        String::from("first"),
    ));
    message_context.emit(Message::new_global(Severity::Note, String::from("second")));

    let messages = message_context.messages();
    assert_eq!(messages.len(), 2);
    assert_eq!(messages[0].description, String::from("first"));
    assert!(matches!(messages[0].source, MessageSource::Location { .. }));
    assert_eq!(messages[1].severity, Severity::Note);
    assert_eq!(message_context.count_with_severity(Severity::Error), 1);
    assert_eq!(message_context.count_with_severity(Severity::Note), 1);
}
