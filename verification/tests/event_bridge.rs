use agent_stream_app::event_bridge::{notification_for, EngineEvent, Notification};
use agent_stream_kit::AgentData;

#[test]
fn input_is_forwarded_on_its_channel() {
    let n = notification_for(EngineEvent::AgentIn("agent-1".to_string(), "in".to_string())).unwrap();
    assert_eq!(n.channel(), "askit:input");
    match n {
        Notification::Input { agent_id, ch } => {
            assert_eq!(agent_id, "agent-1");
            assert_eq!(ch, "in");
        }
        other => panic!("expected an input, got {:?}", other),
    }
}

#[test]
fn display_is_forwarded_with_its_payload() {
    let data = AgentData::new_unit();
    let n = notification_for(EngineEvent::AgentDisplay("agent-2".to_string(), "result".to_string(), data.clone())).unwrap();
    assert_eq!(n.channel(), "askit:display");
    match n {
        Notification::Display { agent_id, key, data: sent } => {
            assert_eq!(agent_id, "agent-2");
            assert_eq!(key, "result");
            assert_eq!(sent, data);
        }
        other => panic!("expected a display, got {:?}", other),
    }
}

#[test]
fn error_is_forwarded_with_its_message() {
    let n = notification_for(EngineEvent::AgentError("agent-3".to_string(), "boom".to_string())).unwrap();
    assert_eq!(n.channel(), "askit:error");
    match n {
        Notification::Error { agent_id, message } => {
            assert_eq!(agent_id, "agent-3");
            assert_eq!(message, "boom");
        }
        other => panic!("expected an error, got {:?}", other),
    }
}

#[test]
fn board_events_are_not_forwarded() {
    assert!(notification_for(EngineEvent::Board("board".to_string(), AgentData::new_unit())).is_none());
}
