//! What holds of lists of failures.

use vstd::prelude::*;

use crate::failure::{known_at, same_test, upserted, FailureModel};

verus! {

/// Whether no two entries of a list are on one test.
pub open spec fn distinct(list: Seq<FailureModel>) -> bool {
    forall|i: int, k: int|
        0 <= i < k < list.len() ==> !same_test(#[trigger] list[i], #[trigger] list[k])
}

pub(crate) proof fn lemma_known_at(list: Seq<FailureModel>, f: FailureModel)
    ensures
        match known_at(list, f) {
            Some(i) => i < list.len() && same_test(list[i as int], f) && forall|k: int|
                0 <= k < i ==> !same_test(#[trigger] list[k], f),
            None => forall|k: int| 0 <= k < list.len() ==> !same_test(#[trigger] list[k], f),
        },
    decreases list.len(),
{
    if list.len() > 0 {
        let rest = list.drop_last();
        lemma_known_at(rest, f);
        assert forall|k: int| 0 <= k < rest.len() implies #[trigger] list[k] == rest[k] by {}
    }
}

/// The position where a report on a test is merged is the first that is on the
/// same test, so a property of that position determines it.
pub(crate) proof fn lemma_first_known(list: Seq<FailureModel>, f: FailureModel, i: int)
    requires
        0 <= i < list.len(),
        same_test(list[i], f),
        forall|k: int| 0 <= k < i ==> !same_test(#[trigger] list[k], f),
    ensures
        known_at(list, f) == Some(i as nat),
{
    lemma_known_at(list, f);
}

/// A report makes a list longer by one entry if its test is new, and by none if
/// it is known.
pub proof fn law_one_entry_per_new_test(list: Seq<FailureModel>, f: FailureModel)
    ensures
        (exists|i: int| 0 <= i < list.len() && same_test(#[trigger] list[i], f)) ==> upserted(
            list,
            f,
        ).len() == list.len(),
        (forall|i: int| 0 <= i < list.len() ==> !same_test(#[trigger] list[i], f)) ==> upserted(
            list,
            f,
        ) == list.push(f),
{
    lemma_known_at(list, f);
}

/// Whether an entry holds all that an earlier one held: the name, and everything
/// that was not empty.
pub open spec fn keeps_facts(earlier: FailureModel, later: FailureModel) -> bool {
    &&& later.test_name == earlier.test_name
    &&& earlier.fqn.len() > 0 ==> later.fqn == earlier.fqn
    &&& earlier.message.len() > 0 ==> later.message == earlier.message
    &&& earlier.location.len() > 0 ==> later.location == earlier.location
    &&& earlier.stack_lines.len() > 0 ==> later.stack_lines == earlier.stack_lines
}

/// No report overwrites what an entry already holds, nor moves or removes the
/// entry.
pub proof fn law_known_facts_stay(list: Seq<FailureModel>, f: FailureModel, i: int)
    requires
        0 <= i < list.len(),
    ensures
        i < upserted(list, f).len(),
        keeps_facts(list[i], upserted(list, f)[i]),
{
    lemma_known_at(list, f);
}

/// The same report twice is the same as once.
pub proof fn law_repeated_report_changes_nothing(list: Seq<FailureModel>, f: FailureModel)
    ensures
        upserted(upserted(list, f), f) == upserted(list, f),
{
    let once = upserted(list, f);
    lemma_known_at(list, f);
    match known_at(list, f) {
        Some(i) => {
            assert forall|k: int| 0 <= k < i implies !same_test(#[trigger] once[k], f) by {
                assert(once[k] == list[k]);
            }
            lemma_first_known(once, f, i as int);
        },
        None => {
            assert forall|k: int| 0 <= k < list.len() implies !same_test(#[trigger] once[k], f) by {
                assert(once[k] == list[k]);
            }
            lemma_first_known(once, f, list.len() as int);
        },
    }
    assert(upserted(once, f) =~= once);
}

/// A list in which each test has one entry keeps that property.
pub proof fn law_each_test_keeps_one_entry(list: Seq<FailureModel>, f: FailureModel)
    requires
        distinct(list),
    ensures
        distinct(upserted(list, f)),
{
    let after = upserted(list, f);
    lemma_known_at(list, f);
    match known_at(list, f) {
        Some(n) => {
            assert forall|i: int, k: int| 0 <= i < k < after.len() implies !same_test(
                #[trigger] after[i],
                #[trigger] after[k],
            ) by {
                assert(!same_test(list[i], list[k]));
                if i == n {
                    assert(after[k] == list[k]);
                } else if k == n {
                    assert(after[i] == list[i]);
                    assert(!same_test(list[i], f));
                } else {
                    assert(after[i] == list[i] && after[k] == list[k]);
                }
            }
        },
        None => {
            assert forall|i: int, k: int| 0 <= i < k < after.len() implies !same_test(
                #[trigger] after[i],
                #[trigger] after[k],
            ) by {
                assert(after[i] == list[i]);
                if k < list.len() {
                    assert(after[k] == list[k]);
                }
            }
        },
    }
}

/// Two tests of one name in different packages stay apart: a report whose full
/// name differs from that of an entry leaves that entry as it is.
pub proof fn law_packages_stay_apart(list: Seq<FailureModel>, f: FailureModel, i: int)
    requires
        0 <= i < list.len(),
        list[i].fqn.len() > 0,
        f.fqn.len() > 0,
        list[i].fqn != f.fqn,
    ensures
        upserted(list, f)[i] == list[i],
{
    lemma_known_at(list, f);
}

/// Whether two reports can be on one test: the names are the same, and not both full
/// names are known and different.
pub open spec fn may_be_one_test(a: FailureModel, b: FailureModel) -> bool {
    a.test_name == b.test_name && !(a.fqn.len() > 0 && b.fqn.len() > 0 && a.fqn != b.fqn)
}

/// A report goes to the first entry that can be on its test. That entry takes from
/// it what it has not got itself, field by field, and all other entries stay as they
/// are. Where there is no such entry the report is a new one, behind all others.
pub proof fn law_reports_are_merged_field_by_field(
    list: Seq<FailureModel>,
    f: FailureModel,
    i: int,
)
    ensures
        (forall|k: int| 0 <= k < list.len() ==> !may_be_one_test(#[trigger] list[k], f))
            ==> upserted(list, f) == list.push(f),
        0 <= i < list.len() && may_be_one_test(list[i], f) && (forall|k: int|
            0 <= k < i ==> !may_be_one_test(#[trigger] list[k], f)) ==> {
            let old_entry = list[i];
            let entry = upserted(list, f)[i];
            &&& upserted(list, f).len() == list.len()
            &&& forall|k: int|
                0 <= k < list.len() && k != i ==> #[trigger] upserted(list, f)[k] == list[k]
            &&& entry.test_name == old_entry.test_name
            &&& entry.fqn == if old_entry.fqn.len() > 0 {
                old_entry.fqn
            } else {
                f.fqn
            }
            &&& entry.message == if old_entry.message.len() > 0 {
                old_entry.message
            } else {
                f.message
            }
            &&& entry.location == if old_entry.location.len() > 0 {
                old_entry.location
            } else {
                f.location
            }
            &&& entry.stack_lines == if old_entry.stack_lines.len() > 0 {
                old_entry.stack_lines
            } else {
                f.stack_lines
            }
        },
{
    assert forall|a: FailureModel| #[trigger] same_test(a, f) == may_be_one_test(a, f) by {}
    lemma_known_at(list, f);
    if 0 <= i < list.len() && may_be_one_test(list[i], f) && (forall|k: int|
        0 <= k < i ==> !may_be_one_test(#[trigger] list[k], f)) {
        assert forall|k: int| 0 <= k < i implies !same_test(#[trigger] list[k], f) by {
            assert(!may_be_one_test(list[k], f));
        }
        lemma_first_known(list, f, i);
    } else if forall|k: int| 0 <= k < list.len() ==> !may_be_one_test(#[trigger] list[k], f) {
        assert forall|k: int| 0 <= k < list.len() implies !same_test(#[trigger] list[k], f) by {
            assert(!may_be_one_test(list[k], f));
        }
    }
}

} // verus!
