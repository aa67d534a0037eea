//! Permission groups and the users assigned to them.
use vstd::prelude::*;

verus! {

/// A group of permissions.
#[derive(Debug)]
pub struct Group {
    pub name: String,
    pub permissions: Vec<String>,
}

/// A user and the groups the user is in.
#[derive(Debug)]
pub struct User {
    pub name: String,
    pub groups: Vec<String>,
}

} // verus!
