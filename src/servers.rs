//! The two servers of the service, as the configuration they are built from:
//! the ingestion server, and the query and control interface.
use vstd::prelude::*;
use crate::notifications::Notification;
use std::sync::mpsc::Sender;
use crate::channel::{new_channel, recv};
use crate::stateholder::{
    get_state_command, state_of_response, CommandView, StateHolderCommand, StateHolderInterface,
    StateHolderResponse,
};

verus! {

/// Accepts TLS connections and feeds what they send to the state holder.
pub struct APNSServer {
    /// The address to listen on, as `host:port`.
    pub address: String,
    pub ssl_cert_path: String,
    pub ssl_private_key_path: String,
    /// The handle on the state holder that each connection gets a copy of.
    pub stateholder_interface: StateHolderInterface,
}

impl APNSServer {
    pub fn new(
        address: String,
        stateholder_interface: StateHolderInterface,
        ssl_cert_path: String,
        ssl_private_key_path: String,
    ) -> (r: APNSServer)
        ensures
            r.address == address,
            r.ssl_cert_path == ssl_cert_path,
            r.ssl_private_key_path == ssl_private_key_path,
            r.stateholder_interface == stateholder_interface,
    {
        APNSServer { address, stateholder_interface, ssl_cert_path, ssl_private_key_path }
    }
}

/// The method of a query request: `DELETE` clears, any other reads.
#[derive(PartialEq, Eq, Structural, Clone, Copy, Debug)]
pub enum RequestMethod {
    Delete,
    Other,
}

/// What a query request did.
pub enum QueryReply {
    /// The list was cleared.
    Cleared,
    /// The list as it was, in the order of arrival.
    State(Vec<Notification>),
}

/// Serves reads and clears of the state holder's list.
pub struct NotificationHttpServer {
    pub stateholder_interface: StateHolderInterface,
    /// The address to listen on, as `host:port`.
    pub address: String,
}

impl NotificationHttpServer {
    pub fn new(stateholder_interface: StateHolderInterface, address: String) -> (r: NotificationHttpServer)
        ensures
            r.address == address,
            r.stateholder_interface == stateholder_interface,
    {
        NotificationHttpServer { stateholder_interface, address }
    }

    /// The address to listen on.
    pub fn get_config(&self) -> (r: &String)
        ensures
            *r == self.address,
    {
        &self.address
    }

    /// Clears the list on `DELETE`; reads it on any other method. The
    /// command sent to the holder is `command_for(method, ..)`; a read
    /// returns the list that the holder's answer carries.
    pub fn handle_request(&self, method: RequestMethod) -> (r: QueryReply)
        ensures
            r is Cleared <==> method == RequestMethod::Delete,
    {
        let (reply, answers) = new_channel::<StateHolderResponse>();
        self.stateholder_interface.send_command(command_for(method, reply));
        match method {
            RequestMethod::Delete => QueryReply::Cleared,
            RequestMethod::Other => QueryReply::State(state_of_response(recv(&answers))),
        }
    }
}

/// The command that a request of the given method sends to the holder:
/// `Clear` for `DELETE`, `GetState` answered on `reply` for any other.
pub fn command_for(method: RequestMethod, reply: Sender<StateHolderResponse>) -> (r: StateHolderCommand)
    ensures
        method == RequestMethod::Delete ==> r@ == CommandView::Clear,
        method == RequestMethod::Other ==> r == StateHolderCommand::GetState(reply),
        method == RequestMethod::Other ==> r@ == CommandView::GetState,
{
    match method {
        RequestMethod::Delete => StateHolderCommand::Clear,
        RequestMethod::Other => get_state_command(reply),
    }
}

} // verus!
