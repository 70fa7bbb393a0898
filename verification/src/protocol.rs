//! The vocabulary of application protocols: the names by which a trace
//! hints at the protocol of an event, each with its code.

use vstd::prelude::*;
use crate::text::same_text;

verus! {

/// One name of the vocabulary and the code that it stands for.
#[derive(Clone, Debug, PartialEq, Eq)]
pub struct ProtocolName {
    pub name: Vec<u8>,
    pub code: u16,
}

/// The model of a `ProtocolName`.
pub struct ProtocolNameView {
    pub name: Seq<u8>,
    pub code: u16,
}

/// The names that a decoder knows, in the order in which they were added.
#[derive(Clone, Debug, PartialEq, Eq)]
pub struct ProtocolTable {
    pub names: Vec<ProtocolName>,
}

impl View for ProtocolName {
    type V = ProtocolNameView;

    open spec fn view(&self) -> ProtocolNameView {
        ProtocolNameView { name: self.name@, code: self.code }
    }
}

impl View for ProtocolTable {
    type V = Seq<ProtocolNameView>;

    open spec fn view(&self) -> Seq<ProtocolNameView> {
        Seq::new(self.names@.len(), |i: int| self.names@[i]@)
    }
}

/// The code of the first entry from `from` on that has the name `name`.
pub open spec fn code_from(table: Seq<ProtocolNameView>, name: Seq<u8>, from: int) -> Option<u16>
    decreases table.len() - from,
{
    if from < 0 || from >= table.len() {
        None
    } else if table[from].name == name {
        Some(table[from].code)
    } else {
        code_from(table, name, from + 1)
    }
}

/// The code that the vocabulary gives to `name`: that of the first entry
/// with this name.
pub open spec fn protocol_code(table: Seq<ProtocolNameView>, name: Seq<u8>) -> Option<u16> {
    code_from(table, name, 0)
}

/// A name has a code exactly if the vocabulary holds it.
pub proof fn lemma_code_from(table: Seq<ProtocolNameView>, name: Seq<u8>, from: int)
    requires
        0 <= from,
    ensures
        code_from(table, name, from) is Some <==> exists|i: int|
            from <= i < table.len() && #[trigger] table[i].name == name,
    decreases table.len() - from,
{
    if from < table.len() && table[from].name != name {
        lemma_code_from(table, name, from + 1);
    }
}

impl ProtocolTable {
    /// A vocabulary without names.
    pub fn new() -> (r: ProtocolTable)
        ensures
            r@ == Seq::<ProtocolNameView>::empty(),
    {
        let r = ProtocolTable { names: Vec::new() };
        assert(r@ =~= Seq::<ProtocolNameView>::empty());
        r
    }

    /// Adds a name behind those that are there.
    pub fn add(&mut self, name: &[u8], code: u16)
        ensures
            final(self)@ == old(self)@.push(ProtocolNameView { name: name@, code }),
    {
        let mut owned: Vec<u8> = Vec::new();
        let mut i: usize = 0;
        while i < name.len()
            invariant
                i <= name.len(),
                owned@ == name@.take(i as int),
            decreases name.len() - i,
        {
            owned.push(name[i]);
            assert(owned@ =~= name@.take(i + 1));
            i += 1;
        }
        assert(name@.take(name.len() as int) =~= name@);
        self.names.push(ProtocolName { name: owned, code });
        assert(self@ =~= old(self)@.push(ProtocolNameView { name: name@, code }));
    }

    /// Looks a name up.
    pub fn lookup(&self, name: &[u8]) -> (r: Option<u16>)
        ensures
            r == protocol_code(self@, name@),
    {
        let mut i: usize = 0;
        while i < self.names.len()
            invariant
                i <= self.names.len(),
                protocol_code(self@, name@) == code_from(self@, name@, i as int),
            decreases self.names.len() - i,
        {
            if same_text(self.names[i].name.as_slice(), name) {
                return Some(self.names[i].code);
            }
            i += 1;
        }
        None
    }
}

} // verus!
