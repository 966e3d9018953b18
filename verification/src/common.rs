//! Helpers shared by the keyboards.

use vstd::prelude::*;

verus! {

/// Number of keys on a mnemonic keyboard.
pub const MNEMONIC_KEY_COUNT: usize = 9;

/// Identifier of the backspace button. The keys have their index as
/// identifier.
pub const BACK_ID: usize = 9;

/// Identifier of the input area, which doubles as the confirm button.
pub const INPUT_ID: usize = 10;

/// `core::array::from_fn`: the array whose element at each index is what `f`
/// returns for that index.
#[verifier::external_body]
fn array_from_fn<U, F: Fn(usize) -> U, const L: usize>(f: F) -> (array: [U; L])
    requires
        forall|i: usize| i < L ==> call_requires(f, (i,)),
    ensures
        forall|i: usize| i < L ==> call_ensures(f, (i,), #[trigger] array@[i as int]),
{
    core::array::from_fn(f)
}

/// Map each element of `array`, together with its index, through `func`: the
/// element at index `i` of the result is what `func` returns for `i` and the
/// element at index `i` of `array`.
pub fn array_map_enumerate<T: Copy, U, F: Fn(usize, T) -> U, const L: usize>(
    array: [T; L],
    func: F,
) -> (mapped: [U; L])
    requires
        forall|i: usize| i < L ==> call_requires(func, (i, #[trigger] array@[i as int])),
    ensures
        forall|i: usize|
            i < L ==> call_ensures(func, (i, array@[i as int]), #[trigger] mapped@[i as int]),
{
    let func = &func;
    let at_index = |i: usize| -> (u: U)
        requires
            L > i,
        ensures
            call_ensures(*func, (i, array@[i as int]), u),
        { func(i, array[i]) };
    array_from_fn(at_index)
}

} // verus!
