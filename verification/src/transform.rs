//! The write-effect model: the transform applied to one storage key by one
//! execution, and the algebra for merging two transforms aimed at the same
//! key.
//!
//! Merging is left-to-right: `merge(prev, next)` is the single transform
//! equivalent to applying `prev` and then `next`. `Identity` is the unit of
//! the merge; a later `Write` replaces whatever came before it; a numeric
//! accumulation folds into a numeric `Write` and sums with another
//! accumulation. Folding a number into a non-numeric write is a type
//! mismatch, and a sum beyond the 512-bit width is an overflow; either error
//! leaves no effect behind.

use vstd::prelude::*;

use crate::groups::{ContractMetadata, GroupsView};
use crate::u512::{u512_bound, U512};

verus! {

/// The mathematical content of a stored value: a 512-bit integer, an opaque
/// byte string, or a contract's group registry.
pub enum ValueView {
    UInt512(nat),
    Bytes(Seq<u8>),
    Contract(GroupsView),
}

/// A value held at a storage key: a number that accumulating transforms can
/// act on, opaque bytes, or a contract's metadata — its capability groups —
/// which a query on the contract's key hands back.
#[derive(Debug, PartialEq, Eq)]
pub enum StoredValue {
    UInt512(U512),
    Bytes(Vec<u8>),
    Contract(ContractMetadata),
}

impl View for StoredValue {
    type V = ValueView;

    open spec fn view(&self) -> ValueView {
        match self {
            StoredValue::UInt512(n) => ValueView::UInt512(n@),
            StoredValue::Bytes(b) => ValueView::Bytes(b@),
            StoredValue::Contract(m) => ValueView::Contract(m@),
        }
    }
}

impl Clone for StoredValue {
    /// The clone denotes the same value.
    fn clone(&self) -> (r: Self)
        ensures
            r@ == self@,
    {
        match self {
            StoredValue::UInt512(n) => StoredValue::UInt512(n.clone()),
            StoredValue::Bytes(b) => {
                let c = b.clone();
                proof {
                    assert(c@ =~= b@);
                }
                StoredValue::Bytes(c)
            },
            StoredValue::Contract(m) => StoredValue::Contract(m.clone()),
        }
    }
}

/// The mathematical content of a transform.
pub enum TransformView {
    Identity,
    Write(ValueView),
    AddUInt512(nat),
}

/// The effect one execution applies to the value at one storage key:
/// unconditional replacement, numeric accumulation, or a tracked no-op read.
#[derive(Debug, PartialEq, Eq)]
pub enum Transform {
    Identity,
    Write(StoredValue),
    AddUInt512(U512),
}

impl View for Transform {
    type V = TransformView;

    open spec fn view(&self) -> TransformView {
        match self {
            Transform::Identity => TransformView::Identity,
            Transform::Write(v) => TransformView::Write(v@),
            Transform::AddUInt512(d) => TransformView::AddUInt512(d@),
        }
    }
}

impl Clone for Transform {
    /// The clone denotes the same transform.
    fn clone(&self) -> (r: Self)
        ensures
            r@ == self@,
    {
        match self {
            Transform::Identity => Transform::Identity,
            Transform::Write(v) => Transform::Write(v.clone()),
            Transform::AddUInt512(d) => Transform::AddUInt512(d.clone()),
        }
    }
}

/// Why two transforms would not merge. A numeric delta aimed at a
/// non-numeric write is a type mismatch; a sum beyond 512 bits is an
/// overflow. Either way no state is changed.
#[derive(Debug, Clone, Copy, PartialEq, Eq, Structural)]
pub enum MergeError {
    TypeMismatch,
    Overflow,
}

/// What merging two transforms denotes, over their mathematical content.
pub open spec fn spec_merge(prev: TransformView, next: TransformView) -> Result<
    TransformView,
    MergeError,
> {
    match (prev, next) {
        (x, TransformView::Identity) => Ok(x),
        (TransformView::Identity, y) => Ok(y),
        (_, TransformView::Write(v)) => Ok(TransformView::Write(v)),
        (TransformView::Write(v), TransformView::AddUInt512(d)) => match v {
            ValueView::UInt512(n) => if n + d < u512_bound() {
                Ok(TransformView::Write(ValueView::UInt512((n + d) as nat)))
            } else {
                Err(MergeError::Overflow)
            },
            _ => Err(MergeError::TypeMismatch),
        },
        (TransformView::AddUInt512(a), TransformView::AddUInt512(b)) => if a + b < u512_bound() {
            Ok(TransformView::AddUInt512((a + b) as nat))
        } else {
            Err(MergeError::Overflow)
        },
    }
}

/// The content of a merge result: the merged transform's content on success,
/// the error unchanged on failure.
pub open spec fn merge_result_view(r: Result<Transform, MergeError>) -> Result<
    TransformView,
    MergeError,
> {
    match r {
        Ok(t) => Ok(t@),
        Err(e) => Err(e),
    }
}

/// Merges the transform `next` into the earlier transform `prev` for the
/// same key, returning the single equivalent transform, or the error that
/// says why the two are incompatible. Pure: no state is touched.
pub fn merge(prev: Transform, next: Transform) -> (r: Result<Transform, MergeError>)
    ensures
        merge_result_view(r) == spec_merge(prev@, next@),
{
    match (prev, next) {
        (x, Transform::Identity) => Ok(x),
        (Transform::Identity, y) => Ok(y),
        (_, Transform::Write(v)) => Ok(Transform::Write(v)),
        (Transform::Write(v), Transform::AddUInt512(d)) => match v {
            StoredValue::UInt512(n) => match n.checked_add(&d) {
                Some(c) => Ok(Transform::Write(StoredValue::UInt512(c))),
                None => Err(MergeError::Overflow),
            },
            StoredValue::Bytes(_) => Err(MergeError::TypeMismatch),
            StoredValue::Contract(_) => Err(MergeError::TypeMismatch),
        },
        (Transform::AddUInt512(a), Transform::AddUInt512(b)) => match a.checked_add(&b) {
            Some(c) => Ok(Transform::AddUInt512(c)),
            None => Err(MergeError::Overflow),
        },
    }
}

/// `Identity` is the unit of the merge monoid: merged on either side, it
/// leaves the other transform unchanged, for every transform.
pub proof fn lemma_merge_identity(t: TransformView)
    ensures
        spec_merge(TransformView::Identity, t) == Ok::<TransformView, MergeError>(t),
        spec_merge(t, TransformView::Identity) == Ok::<TransformView, MergeError>(t),
{
}

/// Two numeric accumulations for the same key combine by summing their
/// deltas; a sum beyond the 512-bit width is rejected as an overflow.
pub proof fn lemma_merge_add_sums(a: nat, b: nat)
    ensures
        a + b < u512_bound() ==> spec_merge(
            TransformView::AddUInt512(a),
            TransformView::AddUInt512(b),
        ) == Ok::<TransformView, MergeError>(TransformView::AddUInt512((a + b) as nat)),
        a + b >= u512_bound() ==> spec_merge(
            TransformView::AddUInt512(a),
            TransformView::AddUInt512(b),
        ) == Err::<TransformView, MergeError>(MergeError::Overflow),
{
}

/// A numeric accumulation after a numeric write folds the delta into the
/// written value; aimed at a non-numeric write it is a type mismatch.
pub proof fn lemma_merge_write_folds(n: nat, d: nat, v: ValueView)
    ensures
        n + d < u512_bound() ==> spec_merge(
            TransformView::Write(ValueView::UInt512(n)),
            TransformView::AddUInt512(d),
        ) == Ok::<TransformView, MergeError>(
            TransformView::Write(ValueView::UInt512((n + d) as nat)),
        ),
        n + d >= u512_bound() ==> spec_merge(
            TransformView::Write(ValueView::UInt512(n)),
            TransformView::AddUInt512(d),
        ) == Err::<TransformView, MergeError>(MergeError::Overflow),
        !(v is UInt512) ==> spec_merge(TransformView::Write(v), TransformView::AddUInt512(d))
            == Err::<TransformView, MergeError>(MergeError::TypeMismatch),
{
}

/// Merging two numeric accumulations is commutative: the order of the two
/// deltas does not change the merged transform or the error.
pub proof fn lemma_merge_add_commutes(a: nat, b: nat)
    ensures
        spec_merge(TransformView::AddUInt512(a), TransformView::AddUInt512(b)) == spec_merge(
            TransformView::AddUInt512(b),
            TransformView::AddUInt512(a),
        ),
{
}

} // verus!
