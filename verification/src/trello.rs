//! Plain data carried to and from the Trello import client, and the logic
//! that reads a check item's state string. The HTTP client and the JSON
//! (de)serialization glue live outside the library; they hand these types
//! plain values.

use vstd::prelude::*;

verus! {

/// Things that carry a Trello identifier.
pub trait ID {
    /// The identifier as a character sequence.
    spec fn id_spec(&self) -> Seq<char>;

    fn get_id(&self) -> (r: &str)
        ensures
            r@ == self.id_spec(),
    ;
}

/// A Trello board.
#[derive(Debug)]
pub struct Board {
    pub name: String,
    pub url: String,
    pub id: String,
    pub desc: String,
}

/// A list on a Trello board.
#[derive(Debug)]
pub struct List {
    pub id: String,
    pub name: String,
    pub closed: bool,
    pub id_board: String,
}

/// A checklist on a Trello card.
#[derive(Debug)]
pub struct Checklist {
    pub id: String,
    pub name: String,
    pub check_items: Vec<CheckItem>,
}

/// One entry of a checklist; `state` is true when the entry is complete.
#[derive(Debug)]
pub struct CheckItem {
    pub id_checklist: String,
    pub state: bool,
    pub id: String,
    pub name: String,
}

impl ID for Board {
    open spec fn id_spec(&self) -> Seq<char> {
        self.id@
    }

    fn get_id(&self) -> (r: &str)
        ensures
            r@ == self.id_spec(),
    {
        self.id.as_str()
    }
}

impl ID for List {
    open spec fn id_spec(&self) -> Seq<char> {
        self.id@
    }

    fn get_id(&self) -> (r: &str)
        ensures
            r@ == self.id_spec(),
    {
        self.id.as_str()
    }
}

impl ID for Checklist {
    open spec fn id_spec(&self) -> Seq<char> {
        self.id@
    }

    fn get_id(&self) -> (r: &str)
        ensures
            r@ == self.id_spec(),
    {
        self.id.as_str()
    }
}

impl ID for CheckItem {
    open spec fn id_spec(&self) -> Seq<char> {
        self.id@
    }

    fn get_id(&self) -> (r: &str)
        ensures
            r@ == self.id_spec(),
    {
        self.id.as_str()
    }
}

/// The wire form of a check item's state: complete items say "complete",
/// incomplete items say "incomplete".
pub fn check_state_str(state: bool) -> (r: &'static str)
    ensures
        state ==> r@ == "complete"@,
        !state ==> r@ == "incomplete"@,
{
    if state {
        "complete"
    } else {
        "incomplete"
    }
}

/// Whether a state string from the wire counts as complete: any state not
/// containing "in" does, as the import client reads it.
pub fn check_state_from_str(state: &str) -> (r: bool)
    ensures
        r == !crate::search::contains_spec(state@, "in"@),
{
    !crate::search::contains_sub(state, "in")
}

} // verus!
