//! Clone-on-write vectors, from the crate `ecow`.
use crate::instr::Instr;
use ecow::EcoVec;
use vstd::prelude::*;

verus! {

/// The vector type of `ecow`.
#[verifier::external_type_specification]
#[verifier::external_body]
#[verifier::reject_recursive_types(T)]
pub struct ExEcoVec<T>(ecow::EcoVec<T>);

/// The instructions in a vector, in order.
pub uninterp spec fn code_of(code: EcoVec<Instr>) -> Seq<Instr>;

/// The bytes in a vector, in order.
pub uninterp spec fn bytes_of(bytes: EcoVec<u8>) -> Seq<u8>;

/// `EcoVec::new`, for instructions: the vector is empty.
#[verifier::external_body]
pub(crate) fn code_new() -> (res: EcoVec<Instr>)
    ensures
        code_of(res) == Seq::<Instr>::empty(),
{
    EcoVec::new()
}

/// `EcoVec::push`, for instructions: the instruction is added at the end. Where the buffer is
/// shared, the instructions before it are cloned, and a clone of an instruction equals it.
#[verifier::external_body]
pub(crate) fn code_push(code: &mut EcoVec<Instr>, instr: Instr)
    ensures
        code_of(*final(code)) == code_of(*old(code)).push(instr),
{
    code.push(instr)
}

/// `EcoVec::as_slice`, for instructions: the same instructions in the same order.
#[verifier::external_body]
pub(crate) fn code_slice(code: &EcoVec<Instr>) -> (res: &[Instr])
    ensures
        res@ == code_of(*code),
{
    code.as_slice()
}

/// `EcoVec::clone`, for instructions: the copy shares the buffer, so it holds the same.
#[verifier::external_body]
pub(crate) fn code_clone(code: &EcoVec<Instr>) -> (res: EcoVec<Instr>)
    ensures
        code_of(res) == code_of(*code),
{
    code.clone()
}

/// `EcoVec::new`, for bytes: the vector is empty.
#[verifier::external_body]
pub(crate) fn bytes_new() -> (res: EcoVec<u8>)
    ensures
        bytes_of(res) == Seq::<u8>::empty(),
{
    EcoVec::new()
}

/// `EcoVec::extend_from_slice`, for bytes: the bytes of the slice are added at the end.
#[verifier::external_body]
pub(crate) fn bytes_extend(bytes: &mut EcoVec<u8>, more: &[u8])
    ensures
        bytes_of(*final(bytes)) == bytes_of(*old(bytes)) + more@,
{
    bytes.extend_from_slice(more)
}

/// `EcoVec::clone`, for bytes: the copy has the same pointer and the same length, so it is the
/// same vector.
#[verifier::external_body]
pub(crate) fn bytes_clone(bytes: &EcoVec<u8>) -> (res: EcoVec<u8>)
    ensures
        res == *bytes,
{
    bytes.clone()
}

} // verus!
