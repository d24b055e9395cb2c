//! The single owner of the list of received notifications, reached only
//! through messages on a channel.
use vstd::prelude::*;
use std::sync::mpsc::{Receiver, Sender};
use crate::channel::{new_channel, recv, send};
use crate::notifications::{Notification, NotificationView};

verus! {

/// A message to the state holder.
pub enum StateHolderCommand {
    /// Asks for a copy of the list, to be sent back on the given channel.
    GetState(Sender<StateHolderResponse>),
    /// Adds a notification at the end of the list.
    Append(Notification),
    /// Empties the list.
    Clear,
}

/// The state holder's answer to `GetState`.
pub enum StateHolderResponse {
    State(Vec<Notification>),
}

/// The holder's answer to one command, and the channel it goes back on.
pub struct Reply {
    pub channel: Sender<StateHolderResponse>,
    pub response: StateHolderResponse,
}

/// The list that an answer carries.
pub open spec fn response_list(r: StateHolderResponse) -> Seq<NotificationView> {
    match r {
        StateHolderResponse::State(ns) => views(ns@),
    }
}

/// What a command asks of the list.
pub ghost enum CommandView {
    GetState,
    Append(NotificationView),
    Clear,
}

impl View for StateHolderCommand {
    type V = CommandView;

    open spec fn view(&self) -> CommandView {
        match self {
            StateHolderCommand::GetState(_) => CommandView::GetState,
            StateHolderCommand::Append(n) => CommandView::Append(n@),
            StateHolderCommand::Clear => CommandView::Clear,
        }
    }
}

/// The list after one command.
pub open spec fn apply(state: Seq<NotificationView>, c: CommandView) -> Seq<NotificationView> {
    match c {
        CommandView::GetState => state,
        CommandView::Append(n) => state.push(n),
        CommandView::Clear => Seq::empty(),
    }
}

/// The list after commands handled one at a time, in the order given.
pub open spec fn apply_all(state: Seq<NotificationView>, cs: Seq<CommandView>) -> Seq<NotificationView>
    decreases cs.len(),
{
    if cs.len() == 0 {
        state
    } else {
        apply(apply_all(state, cs.drop_last()), cs.last())
    }
}

/// The views of a sequence of notifications.
pub open spec fn views(ns: Seq<Notification>) -> Seq<NotificationView> {
    ns.map_values(|n: Notification| n@)
}

/// Owns the list of notifications and serves the commands that arrive on
/// its channel, one at a time.
pub struct StateHolder {
    port: Receiver<StateHolderCommand>,
    state: Vec<Notification>,
}

impl View for StateHolder {
    type V = Seq<NotificationView>;

    closed spec fn view(&self) -> Seq<NotificationView> {
        views(self.state@)
    }
}

/// Copies a list of notifications.
fn copy_notifications(ns: &Vec<Notification>) -> (r: Vec<Notification>)
    ensures
        views(r@) == views(ns@),
{
    let mut out: Vec<Notification> = Vec::new();
    let mut i: usize = 0;
    while i < ns.len()
        invariant
            i <= ns.len(),
            out@.len() == i,
            forall|j: int| 0 <= j < i ==> #[trigger] out@[j]@ == ns@[j]@,
        decreases ns.len() - i,
    {
        let copy = ns[i].clone();
        out.push(copy);
        i = i + 1;
    }
    proof {
        assert(views(out@) =~= views(ns@));
    }
    out
}

impl StateHolder {
    /// A holder with an empty list, and an interface that sends to it.
    pub fn new() -> (r: (StateHolder, StateHolderInterface))
        ensures
            r.0@ == Seq::<NotificationView>::empty(),
    {
        let (channel, port) = new_channel::<StateHolderCommand>();
        let state_holder = StateHolder { port, state: Vec::new() };
        proof {
            assert(state_holder@ =~= Seq::<NotificationView>::empty());
        }
        let state_holder_interface = StateHolderInterface::new(channel);
        (state_holder, state_holder_interface)
    }

    /// A copy of the list, in the order of arrival.
    pub fn snapshot(&self) -> (r: Vec<Notification>)
        ensures
            views(r@) == self@,
    {
        copy_notifications(&self.state)
    }

    /// Applies one command to the list as `apply` says. `GetState` alone
    /// is answered: with a copy of the list as it was, to be sent on the
    /// channel that the command carries.
    pub fn handle(&mut self, command: StateHolderCommand) -> (r: Option<Reply>)
        ensures
            final(self)@ == apply(old(self)@, command@),
            r is Some <==> command is GetState,
            r matches Some(reply) ==> command == StateHolderCommand::GetState(reply.channel)
                && response_list(reply.response) == old(self)@,
    {
        match command {
            StateHolderCommand::GetState(channel) => {
                let copy = copy_notifications(&self.state);
                Some(Reply { channel, response: StateHolderResponse::State(copy) })
            },
            StateHolderCommand::Append(notification) => {
                self.state.push(notification);
                proof {
                    assert(self@ =~= old(self)@.push(notification@));
                }
                None
            },
            StateHolderCommand::Clear => {
                self.state = Vec::new();
                proof {
                    assert(self@ =~= Seq::<NotificationView>::empty());
                }
                None
            },
        }
    }

    /// Serves one command: handles it, and sends the answer, if any, on the
    /// channel it is for.
    pub fn serve(&mut self, command: StateHolderCommand)
        ensures
            final(self)@ == apply(old(self)@, command@),
    {
        match self.handle(command) {
            Some(reply) => {
                send(&reply.channel, reply.response);
            },
            None => {},
        }
    }

    /// Waits for the next command; `None` once no interface is left to send
    /// one.
    pub fn next_command(&self) -> (r: Option<StateHolderCommand>) {
        recv(&self.port)
    }
}

/// The list carried by the holder's answer; an empty one where no answer
/// came because the holder is gone.
pub fn state_of_response(response: Option<StateHolderResponse>) -> (r: Vec<Notification>)
    ensures
        match response {
            Some(StateHolderResponse::State(ns)) => r@ == ns@,
            None => r@.len() == 0,
        },
{
    match response {
        Some(StateHolderResponse::State(ns)) => ns,
        None => Vec::new(),
    }
}

/// The command that asks for a copy of the list, to be answered on `reply`.
pub fn get_state_command(reply: Sender<StateHolderResponse>) -> (r: StateHolderCommand)
    ensures
        r == StateHolderCommand::GetState(reply),
        r@ == CommandView::GetState,
{
    StateHolderCommand::GetState(reply)
}

/// A handle on the state holder for one user: sends it commands. Each
/// request for the list gets an answer channel of its own, so that a holder
/// that is gone leaves the request with no answer rather than waiting.
pub struct StateHolderInterface {
    channel_to_stateholder: Sender<StateHolderCommand>,
}

impl Clone for StateHolderInterface {
    /// Another handle on the same holder.
    fn clone(&self) -> (r: StateHolderInterface) {
        StateHolderInterface::new(self.channel_to_stateholder.clone())
    }
}

impl StateHolderInterface {
    pub fn new(channel_to_stateholder: Sender<StateHolderCommand>) -> (r: StateHolderInterface) {
        StateHolderInterface { channel_to_stateholder }
    }

    /// Sends a command to the holder.
    pub fn send_command(&self, command: StateHolderCommand) {
        send(&self.channel_to_stateholder, command);
    }

    /// Asks the holder for a copy of the list and waits for it; an empty
    /// list where the holder is gone.
    pub fn get_state(&self) -> (r: Vec<Notification>) {
        let (reply, answers) = new_channel::<StateHolderResponse>();
        self.send_command(get_state_command(reply));
        state_of_response(recv(&answers))
    }

    /// Sends a notification to be added at the end of the list.
    pub fn add_notification(&self, notification: Notification) {
        self.send_command(StateHolderCommand::Append(notification));
    }

    /// Asks the holder to empty the list.
    pub fn clear(&self) {
        self.send_command(StateHolderCommand::Clear);
    }
}

} // verus!
