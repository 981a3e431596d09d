use vstd::prelude::*;

use std::sync::Arc;

use crate::group_table::{get_or_create_effect, Group, GroupTable};

verus! {

/// A request a client sends to the server.
#[derive(Debug)]
pub enum FromClient {
    /// Join (and make, if need be) the named group.
    Join { group_name: Arc<String> },
    /// Post a message to the named group.
    Post { group_name: Arc<String>, message: Arc<String> },
    /// A database command.
    Query { command: String },
}

/// What the server does about a request.
#[derive(Debug)]
pub enum ServeAction {
    /// Subscribe the client to this group.
    JoinGroup(Arc<Group>),
    /// Send the message to every member of this group.
    PostToGroup(Arc<Group>, Arc<String>),
    /// Report the command received.
    ReportQuery(String),
    /// Tell the client that no group has this name.
    NoSuchGroup(Arc<String>),
}

/// Decides what to do about one request: joining looks the group up and
/// makes it when it is missing; posting needs the group to exist; a command
/// is reported.
pub fn handle_request(groups: &mut GroupTable, request: FromClient) -> (action: ServeAction)
    ensures
        match request {
            FromClient::Join { group_name } => {
                let (after, g) = get_or_create_effect(old(groups)@, group_name);
                &&& final(groups)@ == after
                &&& action matches ServeAction::JoinGroup(r) && *r == g
            },
            FromClient::Post { group_name, message } => {
                &&& final(groups)@ == old(groups)@
                &&& if old(groups)@.contains_key((*group_name)@) {
                    action matches ServeAction::PostToGroup(r, m) && *r == old(groups)@[(
                    *group_name)@] && m == message
                } else {
                    action matches ServeAction::NoSuchGroup(n) && n == group_name
                }
            },
            FromClient::Query { command } => {
                &&& final(groups)@ == old(groups)@
                &&& action matches ServeAction::ReportQuery(c) && c == command
            },
        },
{
    match request {
        FromClient::Join { group_name } => {
            let group = groups.get_or_create(group_name);
            ServeAction::JoinGroup(group)
        },
        FromClient::Query { command } => ServeAction::ReportQuery(command),
        FromClient::Post { group_name, message } => {
            match groups.get(&*group_name) {
                Some(group) => ServeAction::PostToGroup(group, message),
                None => ServeAction::NoSuchGroup(group_name),
            }
        },
    }
}

} // verus!
