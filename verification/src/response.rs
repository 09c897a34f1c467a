use vstd::prelude::*;

verus! {

/// The task polls owed to all users: one entry per user and chat.
#[derive(Debug)]
pub struct UserTaskData {
    pub data: Vec<PollData>,
}

/// One poll to send: the chat it goes to, the user it asks, and the task
/// names it offers.
#[derive(Debug)]
pub struct PollData {
    pub chat_id: i64,
    pub user_id: i32,
    pub task_names: Vec<String>,
}

} // verus!
