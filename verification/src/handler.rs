//! The decisions of the streaming command handlers: what each does when it
//! starts, when a command reaches it, when its close timer fires and when it
//! stops. The actor runtime performs the actions.
use crate::router::{lemma_device_stays_under_name, router_after, CommandMessage, RouterCall};
use vstd::prelude::*;

verus! {

/// How long a streaming handler waits for a command before it closes the
/// stream, in milliseconds.
pub const CLOSE_AFTER_MS: u64 = 5000;

/// The name under which the handlers subscribe to the command router.
pub open spec fn subscription_name() -> Seq<char> {
    seq!['t', 'e', 's', 't']
}

/// What happens to a handler.
pub enum HandlerEvent {
    /// The handler's actor started.
    Started,
    /// A command reached the handler.
    Message(CommandMessage),
    /// The close timer scheduled at start fired.
    CloseTimer,
    /// The handler's actor stopped.
    Stopped,
}

/// What a handler asks its runtime to do.
pub enum HandlerAction {
    /// Subscribe this handler to the command router under the given name.
    Subscribe(String),
    /// Unsubscribe the given name from the command router.
    Unsubscribe(String),
    /// Fire the close timer after the given number of milliseconds.
    ScheduleClose(u64),
    /// Write the given text to the response stream.
    Write(String),
    /// End the response stream.
    Close,
}

/// A handler action with its text taken by view.
pub enum ActionView {
    Subscribe(Seq<char>),
    Unsubscribe(Seq<char>),
    ScheduleClose(u64),
    Write(Seq<char>),
    Close,
}

impl View for HandlerAction {
    type V = ActionView;

    open spec fn view(&self) -> ActionView {
        match self {
            HandlerAction::Subscribe(s) => ActionView::Subscribe(s@),
            HandlerAction::Unsubscribe(s) => ActionView::Unsubscribe(s@),
            HandlerAction::ScheduleClose(ms) => ActionView::ScheduleClose(*ms),
            HandlerAction::Write(s) => ActionView::Write(s@),
            HandlerAction::Close => ActionView::Close,
        }
    }
}

/// The views of a sequence of actions.
pub open spec fn actions_view(s: Seq<HandlerAction>) -> Seq<ActionView> {
    Seq::new(s.len(), |i: int| s[i]@)
}

/// What the streaming command handler does on each event: on start it
/// subscribes and schedules the close of its stream; a command is written to
/// the stream, which then ends; the timer ends the stream; on stop it
/// unsubscribes.
pub open spec fn command_handler_reaction(event: HandlerEvent) -> Seq<ActionView> {
    match event {
        HandlerEvent::Started => seq![
            ActionView::Subscribe(subscription_name()),
            ActionView::ScheduleClose(CLOSE_AFTER_MS),
        ],
        HandlerEvent::Message(m) => seq![ActionView::Write(m@), ActionView::Close],
        HandlerEvent::CloseTimer => seq![ActionView::Close],
        HandlerEvent::Stopped => seq![ActionView::Unsubscribe(subscription_name())],
    }
}

/// What the test handler does on each event: it subscribes on start and
/// otherwise does nothing.
pub open spec fn test_handler_reaction(event: HandlerEvent) -> Seq<ActionView> {
    match event {
        HandlerEvent::Started => seq![ActionView::Subscribe(subscription_name())],
        _ => Seq::empty(),
    }
}

fn subscription_name_string() -> (r: String)
    ensures
        r@ == subscription_name(),
{
    let r = "test".to_owned();
    proof {
        reveal_strlit("test");
    }
    assert(r@ =~= subscription_name());
    r
}

/// The handler that streams one command back as an HTTP response.
pub struct CommandHandler;

impl CommandHandler {
    /// The actions for `event`.
    pub fn react(&self, event: HandlerEvent) -> (r: Vec<HandlerAction>)
        ensures
            actions_view(r@) == command_handler_reaction(event),
    {
        let ghost e = event;
        let mut r: Vec<HandlerAction> = Vec::new();
        match event {
            HandlerEvent::Started => {
                r.push(HandlerAction::Subscribe(subscription_name_string()));
                r.push(HandlerAction::ScheduleClose(CLOSE_AFTER_MS));
            },
            HandlerEvent::Message(m) => {
                r.push(HandlerAction::Write(m.0));
                r.push(HandlerAction::Close);
            },
            HandlerEvent::CloseTimer => {
                r.push(HandlerAction::Close);
            },
            HandlerEvent::Stopped => {
                r.push(HandlerAction::Unsubscribe(subscription_name_string()));
            },
        }
        assert(actions_view(r@) =~= command_handler_reaction(e));
        r
    }
}

/// A handler that only subscribes, for trying the router out.
pub struct TestHandler;

impl TestHandler {
    /// The actions for `event`.
    pub fn react(&self, event: HandlerEvent) -> (r: Vec<HandlerAction>)
        ensures
            actions_view(r@) == test_handler_reaction(event),
    {
        let ghost e = event;
        let mut r: Vec<HandlerAction> = Vec::new();
        match event {
            HandlerEvent::Started => {
                r.push(HandlerAction::Subscribe(subscription_name_string()));
            },
            _ => {},
        }
        assert(actions_view(r@) =~= test_handler_reaction(e));
        r
    }
}

/// A handler action's view keeps its kind and its full text.
pub proof fn law_action_view_keeps_text(a: HandlerAction)
    ensures
        a matches HandlerAction::Subscribe(t) ==> a@ == ActionView::Subscribe(t@),
        a matches HandlerAction::Unsubscribe(t) ==> a@ == ActionView::Unsubscribe(t@),
        a matches HandlerAction::ScheduleClose(ms) ==> a@ == ActionView::ScheduleClose(ms),
        a matches HandlerAction::Write(t) ==> a@ == ActionView::Write(t@),
        a matches HandlerAction::Close ==> a@ == ActionView::Close,
{
}

/// The views of a sequence of actions are the actions' views, one for one.
pub proof fn law_actions_view_pointwise(s: Seq<HandlerAction>)
    ensures
        actions_view(s).len() == s.len(),
        forall|i: int| 0 <= i < s.len() ==> #[trigger] actions_view(s)[i] == s[i]@,
{
}

/// A command that reaches the streaming handler is written to the stream
/// whole, as its full text, and the stream then ends: nothing else is done.
pub proof fn law_command_written_whole_then_closed(m: CommandMessage)
    ensures
        command_handler_reaction(HandlerEvent::Message(m)).len() == 2,
        command_handler_reaction(HandlerEvent::Message(m))[0] == ActionView::Write(m.0@),
        command_handler_reaction(HandlerEvent::Message(m))[1] == ActionView::Close,
{
}

/// On start the streaming handler subscribes under the name `test` and
/// schedules the end of its stream five seconds later; the timer only ends
/// the stream; on stop it only unsubscribes `test`.
pub proof fn law_command_handler_lifecycle()
    ensures
        command_handler_reaction(HandlerEvent::Started) == seq![
            ActionView::Subscribe(seq!['t', 'e', 's', 't']),
            ActionView::ScheduleClose(5000),
        ],
        command_handler_reaction(HandlerEvent::CloseTimer) == seq![ActionView::Close],
        command_handler_reaction(HandlerEvent::Stopped) == seq![
            ActionView::Unsubscribe(seq!['t', 'e', 's', 't']),
        ],
{
}

/// The test handler subscribes under the name `test` on start and does
/// nothing on any other event.
pub proof fn law_test_handler_only_subscribes(m: CommandMessage)
    ensures
        test_handler_reaction(HandlerEvent::Started) == seq![
            ActionView::Subscribe(seq!['t', 'e', 's', 't']),
        ],
        test_handler_reaction(HandlerEvent::Message(m)).len() == 0,
        test_handler_reaction(HandlerEvent::CloseTimer).len() == 0,
        test_handler_reaction(HandlerEvent::Stopped).len() == 0,
{
}

/// The streaming handler unsubscribes, when it stops, the very name it
/// subscribed under when it started.
pub proof fn law_handler_unsubscribes_what_it_subscribed()
    ensures
        command_handler_reaction(HandlerEvent::Started)[0] == ActionView::Subscribe(
            subscription_name(),
        ),
        command_handler_reaction(HandlerEvent::Stopped) == seq![
            ActionView::Unsubscribe(subscription_name()),
        ],
{
}

/// A streaming handler that subscribed its handle `h` when it started and
/// unsubscribed when it stopped leaves `h` registered under no name, whatever
/// else the router handled in between, as long as `h` was under no name
/// before it started and nothing else subscribed `h`.
pub proof fn law_stopped_handler_leaves_no_registration<D>(
    before: Map<Seq<char>, D>,
    between: Seq<RouterCall<D>>,
    h: D,
)
    requires
        forall|k: Seq<char>| #[trigger] before.contains_key(k) ==> before[k] != h,
        forall|i: int|
            0 <= i < between.len() ==> (#[trigger] between[i] matches RouterCall::Subscribe(_, d)
                ==> d != h),
    ensures
        forall|k: Seq<char>|
            #[trigger] router_after(before.insert(subscription_name(), h), between).remove(
                subscription_name(),
            ).contains_key(k) ==> router_after(before.insert(subscription_name(), h), between).remove(
                subscription_name(),
            )[k] != h,
{
    let start = before.insert(subscription_name(), h);
    assert forall|k: Seq<char>| k != subscription_name() && #[trigger] start.contains_key(
        k,
    ) implies start[k] != h by {
        assert(before.contains_key(k));
    }
    lemma_device_stays_under_name(start, between, subscription_name(), h);
}

/// Whatever reaches the streaming handler, a command or the timer, its
/// stream ends.
pub proof fn law_stream_always_ends(m: CommandMessage)
    ensures
        command_handler_reaction(HandlerEvent::Message(m)).last() == ActionView::Close,
        command_handler_reaction(HandlerEvent::CloseTimer).last() == ActionView::Close,
{
}

} // verus!
