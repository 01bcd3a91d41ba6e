//! The payload of a task: its name and whether it is done.

use vstd::prelude::*;
use vstd::string::StringExecFns;
use crate::text::{push_char, repeat, repeated};

verus! {

/// A task.
#[derive(Clone, Debug)]
pub struct Entry {
    pub name: String,
    pub complete: bool,
}

/// What a task is: the characters of its name and its flag.
pub struct EntryView {
    pub name: Seq<char>,
    pub complete: bool,
}

impl View for Entry {
    type V = EntryView;

    open spec fn view(&self) -> EntryView {
        EntryView { name: self.name@, complete: self.complete }
    }
}

/// The plain line of a task.
pub open spec fn plain_line(e: EntryView, depth: nat) -> Seq<char> {
    repeat("    "@, depth) + seq!['[', if e.complete {
        'X'
    } else {
        ' '
    }, ']', ' '] + e.name
}

/// A payload that can be copied into a second node.
pub trait Duplicate: Sized {
    fn duplicate(&self) -> (r: Self)
        ensures
            r == *self,
    ;
}

impl Duplicate for Entry {
    fn duplicate(&self) -> (r: Entry) {
        Entry { name: self.name.clone(), complete: self.complete }
    }
}

impl Entry {
    /// A task that is not done yet.
    pub fn new(name: String) -> (r: Entry)
        ensures
            r.name == name,
            !r.complete,
    {
        Entry { name, complete: false }
    }

    /// The plain line of the task, `depth` levels deep: four blanks for each
    /// level, the state between brackets, and the name.
    pub fn to_string(&self, depth: usize) -> (r: String)
        ensures
            r@ == plain_line(self@, depth as nat),
    {
        let mut r = repeated("    ", depth);
        push_char(&mut r, '[');
        push_char(&mut r, if self.complete { 'X' } else { ' ' });
        push_char(&mut r, ']');
        push_char(&mut r, ' ');
        r.append(self.name.as_str());
        assert(r@ =~= plain_line(self@, depth as nat));
        r
    }

    pub fn set_name(&mut self, name: String)
        ensures
            final(self).name == name,
            final(self).complete == old(self).complete,
    {
        self.name = name;
    }
}

} // verus!
