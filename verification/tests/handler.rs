use drogue_endpoint::handler::{
    CommandHandler, HandlerAction, HandlerEvent, TestHandler, CLOSE_AFTER_MS,
};
use drogue_endpoint::router::CommandMessage;

#[test]
fn command_handler_subscribes_and_schedules_close_on_start() {
    let actions = CommandHandler.react(HandlerEvent::Started);
    assert_eq!(actions.len(), 2);
    assert!(matches!(&actions[0], HandlerAction::Subscribe(name) if name == "test"));
    assert!(matches!(actions[1], HandlerAction::ScheduleClose(5000)));
    assert_eq!(CLOSE_AFTER_MS, 5000);
}

#[test]
fn command_handler_writes_command_then_closes() {
    let actions = CommandHandler.react(HandlerEvent::Message(CommandMessage("hello".to_string())));
    assert_eq!(actions.len(), 2);
    assert!(matches!(&actions[0], HandlerAction::Write(text) if text == "hello"));
    assert!(matches!(actions[1], HandlerAction::Close));
}

#[test]
fn command_handler_closes_on_timer() {
    let actions = CommandHandler.react(HandlerEvent::CloseTimer);
    assert_eq!(actions.len(), 1);
    assert!(matches!(actions[0], HandlerAction::Close));
}

#[test]
fn command_handler_unsubscribes_on_stop() {
    let actions = CommandHandler.react(HandlerEvent::Stopped);
    assert_eq!(actions.len(), 1);
    assert!(matches!(&actions[0], HandlerAction::Unsubscribe(name) if name == "test"));
}

#[test]
fn test_handler_only_subscribes() {
    let actions = TestHandler.react(HandlerEvent::Started);
    assert_eq!(actions.len(), 1);
    assert!(matches!(&actions[0], HandlerAction::Subscribe(name) if name == "test"));
    assert!(TestHandler.react(HandlerEvent::Stopped).is_empty());
    assert!(TestHandler
        .react(HandlerEvent::Message(CommandMessage("x".to_string())))
        .is_empty());
    assert!(TestHandler.react(HandlerEvent::CloseTimer).is_empty());
}
