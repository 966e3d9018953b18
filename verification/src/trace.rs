//! A textual trace of a component tree, for inspection: each component
//! writes `<Name field:value ... >`.

use vstd::prelude::*;
use vstd::string::StringSliceAdditionalSpecFns;

verus! {

/// What opens the trace of a component called `name`.
pub open spec fn opened(name: &str) -> Seq<u8> {
    seq![60u8] + name.spec_bytes() + seq![32u8]
}

/// The trace of the field `name` whose value traces as `value`.
pub open spec fn field_of(name: &str, value: Seq<u8>) -> Seq<u8> {
    name.spec_bytes() + seq![58u8] + value + seq![32u8]
}

/// What closes the trace of a component.
pub open spec fn closed() -> Seq<u8> {
    seq![62u8]
}

/// What can write a trace of itself.
pub trait Trace {
    /// The trace of `self`.
    spec fn traced(&self) -> Seq<u8>;

    /// Write the trace of `self` behind what `t` holds.
    fn trace(&self, t: &mut Vec<u8>)
        ensures
            final(t)@ == old(t)@ + self.traced(),
    ;
}

/// Write `bytes` as they are.
pub fn bytes(t: &mut Vec<u8>, bytes: &[u8])
    ensures
        final(t)@ == old(t)@ + bytes@,
{
    let mut index: usize = 0;
    while index < bytes.len()
        invariant
            index <= bytes@.len(),
            t@ == old(t)@ + bytes@.take(index as int),
        decreases bytes@.len() - index,
    {
        t.push(bytes[index]);
        assert(bytes@.take(index + 1) =~= bytes@.take(index as int).push(bytes@[index as int]));
        assert(t@ =~= old(t)@ + bytes@.take(index + 1));
        index += 1;
    }
    assert(bytes@.take(index as int) =~= bytes@);
}

/// Write the symbol `name`.
pub fn symbol(t: &mut Vec<u8>, name: &str)
    ensures
        final(t)@ == old(t)@ + name.spec_bytes(),
{
    bytes(t, name.as_bytes());
}

/// Open the trace of a component called `name`.
pub fn open(t: &mut Vec<u8>, name: &str)
    ensures
        final(t)@ == old(t)@ + opened(name),
{
    t.push(60);
    bytes(t, name.as_bytes());
    t.push(32);
    assert(t@ =~= old(t)@ + opened(name));
}

/// Write the field `name` with the trace of `value`.
pub fn field<V: Trace>(t: &mut Vec<u8>, name: &str, value: &V)
    ensures
        final(t)@ == old(t)@ + field_of(name, value.traced()),
{
    bytes(t, name.as_bytes());
    t.push(58);
    value.trace(t);
    t.push(32);
    assert(t@ =~= old(t)@ + field_of(name, value.traced()));
}

/// Write the field `name` with the bytes `value`.
pub fn field_bytes(t: &mut Vec<u8>, name: &str, value: &[u8])
    ensures
        final(t)@ == old(t)@ + field_of(name, value@),
{
    bytes(t, name.as_bytes());
    t.push(58);
    bytes(t, value);
    t.push(32);
    assert(t@ =~= old(t)@ + field_of(name, value@));
}

/// Close the trace of a component.
pub fn close(t: &mut Vec<u8>)
    ensures
        final(t)@ == old(t)@ + closed(),
{
    t.push(62);
}

} // verus!
