use drogue_endpoint::commands::{Command, Commands, Id, COMMAND_BUFFER};
use tokio::runtime::Builder;
use tokio::time::{timeout, Duration};

fn runtime() -> tokio::runtime::Runtime {
    Builder::new_current_thread().enable_time().build().unwrap()
}

async fn deliver(commands: &Commands, msg: Command) -> bool {
    match commands.send(msg) {
        Some((sender, command)) => {
            let sender = sender.clone();
            sender.send(command).await.is_ok()
        }
        None => false,
    }
}

#[test]
fn test_timeout() {
    runtime().block_on(async {
        let id = Id::new("test", "test");

        let mut commands = Commands::new();
        let msg = Command {
            device_id: id.clone(),
            command: "test".to_string(),
        };

        let mut receiver = commands.subscribe(id.clone());

        let success_handle = tokio::spawn(async move {
            let cmd = timeout(Duration::from_secs(1), receiver.recv()).await;
            assert_eq!(cmd, Ok(Some("test".to_string())));
            let cmd2 = timeout(Duration::from_secs(1), receiver.recv()).await;
            assert_eq!(cmd2.is_err(), true);
        });

        deliver(&commands, msg.clone()).await;

        success_handle.await.unwrap();
    });
}

#[test]
fn send_to_unknown_device_goes_nowhere() {
    let mut commands = Commands::new();
    let _rx = commands.subscribe(Id::new("app", "a"));
    let msg = Command {
        device_id: Id::new("app", "b"),
        command: "on".to_string(),
    };
    assert!(commands.send(msg).is_none());
}

#[test]
fn send_routes_command_text_unchanged() {
    let mut commands = Commands::new();
    let _rx = commands.subscribe(Id::new("app", "a"));
    let msg = Command {
        device_id: Id::new("app", "a"),
        command: "set-temp 21".to_string(),
    };
    let (_, command) = commands.send(msg).unwrap();
    assert_eq!(command, "set-temp 21");
}

#[test]
fn same_device_name_in_other_app_is_another_device() {
    let mut commands = Commands::new();
    let _rx = commands.subscribe(Id::new("app1", "dev"));
    let msg = Command {
        device_id: Id::new("app2", "dev"),
        command: "x".to_string(),
    };
    assert!(commands.send(msg).is_none());
}

#[test]
fn unsubscribe_stops_routing_and_closes_channel() {
    runtime().block_on(async {
        let id = Id::new("app", "a");
        let mut commands = Commands::new();
        let mut rx = commands.subscribe(id.clone());
        commands.unsubscribe(id.clone());
        let msg = Command {
            device_id: id,
            command: "x".to_string(),
        };
        assert!(commands.send(msg).is_none());
        assert_eq!(rx.recv().await, None);
    });
}

#[test]
fn unsubscribe_of_unknown_device_changes_nothing() {
    let mut commands = Commands::new();
    let _rx = commands.subscribe(Id::new("app", "a"));
    commands.unsubscribe(Id::new("app", "zzz"));
    let msg = Command {
        device_id: Id::new("app", "a"),
        command: "x".to_string(),
    };
    assert!(commands.send(msg).is_some());
}

#[test]
fn resubscribe_replaces_previous_channel() {
    runtime().block_on(async {
        let id = Id::new("app", "a");
        let mut commands = Commands::new();
        let mut first = commands.subscribe(id.clone());
        let mut second = commands.subscribe(id.clone());
        let msg = Command {
            device_id: id,
            command: "again".to_string(),
        };
        assert!(deliver(&commands, msg).await);
        assert_eq!(second.recv().await, Some("again".to_string()));
        assert_eq!(first.recv().await, None);
    });
}

#[test]
fn other_devices_unaffected_by_unsubscribe() {
    runtime().block_on(async {
        let mut commands = Commands::new();
        let _a = commands.subscribe(Id::new("app", "a"));
        let mut b = commands.subscribe(Id::new("app", "b"));
        commands.unsubscribe(Id::new("app", "a"));
        let msg = Command {
            device_id: Id::new("app", "b"),
            command: "for-b".to_string(),
        };
        assert!(deliver(&commands, msg).await);
        assert_eq!(b.recv().await, Some("for-b".to_string()));
    });
}

#[test]
fn channel_holds_command_buffer_commands() {
    let mut commands = Commands::new();
    let rx = commands.subscribe(Id::new("app", "a"));
    assert_eq!(COMMAND_BUFFER, 32);
    assert_eq!(rx.max_capacity(), 32);
    let msg = Command {
        device_id: Id::new("app", "a"),
        command: "x".to_string(),
    };
    let (sender, _) = commands.send(msg).unwrap();
    assert_eq!(sender.max_capacity(), 32);
    for i in 0..32 {
        assert!(sender.try_send(format!("{}", i)).is_ok());
    }
    assert!(sender.try_send("one too many".to_string()).is_err());
}

#[test]
fn id_equality_compares_both_parts() {
    assert!(Id::new("a", "b") == Id::new("a", "b"));
    assert!(Id::new("a", "b") != Id::new("a", "c"));
    assert!(Id::new("a", "b") != Id::new("c", "b"));
    let id = Id::new("app", "dev");
    assert_eq!(id.app_id, "app");
    assert_eq!(id.device_id, "dev");
}

#[test]
fn subscribed_receiver_is_open_and_empty() {
    let mut commands = Commands::new();
    let mut rx = commands.subscribe(Id::new("app", "a"));
    assert_eq!(
        rx.try_recv(),
        Err(tokio::sync::mpsc::error::TryRecvError::Empty)
    );
    commands.unsubscribe(Id::new("app", "a"));
    assert_eq!(
        rx.try_recv(),
        Err(tokio::sync::mpsc::error::TryRecvError::Disconnected)
    );
}
