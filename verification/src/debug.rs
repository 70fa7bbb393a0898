//! A builder for the debug form of a struct that can leave out the fields
//! that hold their default value.

use vstd::prelude::*;
use vstd::std_specs::cmp::PartialEqSpec;
use vstd::std_specs::convert::{FromSpec, FromSpecImpl};

verus! {

/// `core::fmt::DebugStruct`: the output of a struct in debug form while
/// its fields are added. Nothing inside it is known here.
#[verifier::external_type_specification]
#[verifier::external_body]
pub struct ExDebugStruct<'a, 'b: 'a>(core::fmt::DebugStruct<'a, 'b>);

/// `core::fmt::Error`: the error of a writer that a formatter writes to.
#[verifier::external_type_specification]
#[verifier::external_body]
pub struct ExFmtError(core::fmt::Error);

/// `core::fmt::DebugStruct::field`: writes a field of the given name, with
/// the debug form of the value, to the output. Nothing is claimed of what
/// the output then holds.
#[verifier::external_body]
fn add_field<'a, 'b: 'a, F: core::fmt::Debug>(
    ds: &mut core::fmt::DebugStruct<'a, 'b>,
    name: &str,
    value: &F,
) {
    core::fmt::DebugStruct::field(ds, name, value);
}

/// `core::fmt::DebugStruct::finish`: closes the output and returns the
/// error that writing met, if any. Whether writing fails rests with the
/// writer: nothing is claimed of the result.
#[verifier::external_body]
fn finish_struct<'a, 'b: 'a>(ds: &mut core::fmt::DebugStruct<'a, 'b>) -> (r: Result<
    (),
    core::fmt::Error,
>) {
    core::fmt::DebugStruct::finish(ds)
}

/// The output of a struct in debug form, in the making. It keeps account
/// of the fields that were handed to the output through it.
pub struct WrappedDebugStruct<'a, 'b: 'a> {
    output: core::fmt::DebugStruct<'a, 'b>,
    names: Ghost<Seq<Seq<char>>>,
}

impl<'a, 'b: 'a> From<core::fmt::DebugStruct<'a, 'b>> for WrappedDebugStruct<'a, 'b> {
    fn from(ds: core::fmt::DebugStruct<'a, 'b>) -> (r: Self) {
        WrappedDebugStruct { output: ds, names: Ghost(Seq::empty()) }
    }
}

impl<'a, 'b: 'a> FromSpecImpl<core::fmt::DebugStruct<'a, 'b>> for WrappedDebugStruct<'a, 'b> {
    open spec fn obeys_from_spec() -> bool {
        true
    }

    closed spec fn from_spec(ds: core::fmt::DebugStruct<'a, 'b>) -> Self {
        WrappedDebugStruct { output: ds, names: Ghost(Seq::empty()) }
    }
}

impl<'a, 'b: 'a> WrappedDebugStruct<'a, 'b> {
    /// The names of the fields that were handed to the output through this
    /// builder, in order.
    pub closed spec fn fields(&self) -> Seq<Seq<char>> {
        self.names@
    }

    /// A builder that wraps a fresh output has handed no field to it.
    pub proof fn lemma_from_has_no_fields(ds: core::fmt::DebugStruct<'a, 'b>)
        ensures
            <Self as FromSpec<core::fmt::DebugStruct<'a, 'b>>>::from_spec(ds).fields() == Seq::<
                Seq<char>,
            >::empty(),
    {
    }

    /// Hands a field to the output if `shown` says so, and leaves the
    /// output as it is otherwise.
    pub fn field_if<F>(&mut self, shown: bool, field: &str, value: &F) -> (r:
        &mut WrappedDebugStruct<'a, 'b>) where F: core::fmt::Debug
        ensures
            *final(self) == *final(r),
            r.fields() == if shown {
                old(self).fields().push(field@)
            } else {
                old(self).fields()
            },
    {
        if shown {
            add_field(&mut self.output, field, value);
            self.names = Ghost(self.names@.push(field@));
        }
        self
    }

    /// Hands a field to the output unless its value is the default of its
    /// type.
    pub fn field_skip_default<F>(&mut self, field: &str, value: &F) -> (r:
        &mut WrappedDebugStruct<'a, 'b>) where F: core::fmt::Debug + Default + PartialEq
        ensures
            *final(self) == *final(r),
            r.fields() == old(self).fields() || r.fields() == old(self).fields().push(field@),
            F::obeys_eq_spec() ==> exists|d: F| #[trigger]
                call_ensures(F::default, (), d) && r.fields() == if value.eq_spec(&d) {
                    old(self).fields()
                } else {
                    old(self).fields().push(field@)
                },
    {
        let d = F::default();
        let shown: bool = *value != d;
        self.field_if(shown, field, value)
    }

    /// Hands a field to the output.
    pub fn field<F>(&mut self, field: &str, value: &F) -> (r: &mut WrappedDebugStruct<'a, 'b>) where
        F: core::fmt::Debug,

        ensures
            *final(self) == *final(r),
            r.fields() == old(self).fields().push(field@),
    {
        add_field(&mut self.output, field, value);
        self.names = Ghost(self.names@.push(field@));
        self
    }

    /// Closes the output. No field is added; the result is that of the
    /// writer.
    pub fn finish(&mut self) -> (r: Result<(), core::fmt::Error>)
        ensures
            final(self).fields() == old(self).fields(),
    {
        finish_struct(&mut self.output)
    }
}

} // verus!
