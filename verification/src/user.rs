use vstd::prelude::*;

verus! {

/// A signed-up user together with the row id the store keeps for them.
pub struct User {
    pub id: i32,
    pub data: UserData,
}

/// What is known about a user: their chat-platform id and display name.
#[derive(Debug)]
pub struct UserData {
    pub user_id: i64,
    pub name: String,
}

} // verus!
