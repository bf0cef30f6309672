//! What the record holds of the steps that make and delete kernel objects.
use vstd::prelude::*;
use crate::crust;
use crate::kobject::cap::lemma_deleted_extends;
use crate::kobject::capset::lemma_deleted_all_extends;
use crate::kobject::cap::deleted;
use crate::mantle::calls::{agreed, no_refusal, retype_steps, verdict};
use crate::mantle::kernel::KError;
use crate::mantle::kernel::ObjectType;
use crate::mantle::kio::{extends, group_extends, last_answer, Event};

verus! {

/// The record `after` is the record `before` with the retype of the untyped in slot
/// `service` into `count` objects of kind `objtype` and `size_bits` size bits, in the
/// slots of the root CNode from `first` on.
pub open spec fn retyped(
    before: Seq<Event>,
    service: usize,
    objtype: ObjectType,
    size_bits: u8,
    first: int,
    count: int,
    after: Seq<Event>,
) -> bool {
    after == before + retype_steps(
        service,
        objtype.spec_code(),
        size_bits as usize,
        crust::ROOT_SLOT,
        0,
        0,
        first as usize,
        count as usize,
        last_answer(after),
    )
}

/// A retype leaves what was recorded before it.
pub broadcast proof fn lemma_retyped_extends(
    before: Seq<Event>,
    service: usize,
    objtype: ObjectType,
    size_bits: u8,
    first: int,
    count: int,
    after: Seq<Event>,
)
    requires
        #[trigger] retyped(before, service, objtype, size_bits, first, count, after),
    ensures
        extends(before, after),
{
    broadcast use group_extends;

}

/// How many retypes the kernel agreed to, where the record `after` holds nothing but
/// retypes beyond `before` and ends with the first that the kernel refuses: each is
/// four steps.
pub open spec fn retypes_agreed(before: Seq<Event>, after: Seq<Event>) -> int {
    if agreed(before, after) {
        (after.len() - before.len()) / 4
    } else {
        (after.len() - before.len()) / 4 - 1
    }
}

/// A retype is four steps.
pub proof fn lemma_retyped_len(
    before: Seq<Event>,
    service: usize,
    objtype: ObjectType,
    size_bits: u8,
    first: int,
    count: int,
    after: Seq<Event>,
)
    requires
        retyped(before, service, objtype, size_bits, first, count, after),
    ensures
        after.len() == before.len() + 4,
{
}

/// The kernel agreed to a retype exactly when its verdict was "no error".
pub broadcast proof fn lemma_retyped_agreed(
    before: Seq<Event>,
    service: usize,
    objtype: ObjectType,
    size_bits: u8,
    first: int,
    count: int,
    after: Seq<Event>,
)
    requires
        #[trigger] retyped(before, service, objtype, size_bits, first, count, after),
    ensures
        agreed(before, after) <==> verdict(last_answer(after)) == KError::NoError,
{
    let n = before.len() as int;
    assert(after.len() == n + 4);
    assert(after.last() == after[n + 3]);
    if agreed(before, after) {
        assert(no_refusal(after[n + 3]));
    }
    if verdict(last_answer(after)) == KError::NoError {
        assert forall|i: int| n <= i < after.len() implies no_refusal(#[trigger] after[i]) by {
            assert(i == n || i == n + 1 || i == n + 2 || i == n + 3);
        }
    }
}

/// The kernel agreed to a deletion exactly when no fault followed it.
pub broadcast proof fn lemma_deleted_agreed(before: Seq<Event>, slot: usize, after: Seq<Event>)
    requires
        #[trigger] deleted(before, slot, after),
    ensures
        agreed(before, after) <==> after.len() == before.len() + 1,
{
    let n = before.len() as int;
    if agreed(before, after) {
        assert(no_refusal(after[n]));
        if after.len() != n + 1 {
            assert(no_refusal(after[n + 1]));
        }
    }
}

/// What is known of every record: it only grows.
pub broadcast group group_record {
    group_extends,
    lemma_deleted_extends,
    lemma_deleted_all_extends,
    lemma_retyped_extends,
}

/// When the kernel agreed to the steps that make and delete objects.
pub broadcast group group_agreed {
    lemma_retyped_agreed,
    lemma_deleted_agreed,
}

} // verus!
