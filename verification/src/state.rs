use vstd::prelude::*;

verus! {

/// An interned, comparable tag naming an upstream. Two labels are the same
/// tag exactly when their character sequences are equal.
pub type Label = String;

/// Read-only snapshot of one query: everything a matcher may inspect.
/// Immutable for the duration of one evaluation pass.
pub struct State {
    /// Queried domain name, in canonical text form.
    pub qname: String,
    /// Numeric record type of the query.
    pub qtype: u16,
}

impl State {
    /// Build a context from the decoded parts of a query.
    pub fn new(qname: String, qtype: u16) -> (s: State)
        ensures
            s.qname@ == qname@,
            s.qtype == qtype,
    {
        State { qname, qtype }
    }
}

impl Default for State {
    /// The empty context: no name, record type zero.
    fn default() -> (s: State)
        ensures
            s.qname@ == Seq::<char>::empty(),
            s.qtype == 0,
    {
        State { qname: String::new(), qtype: 0 }
    }
}

} // verus!
