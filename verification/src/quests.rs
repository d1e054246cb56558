//! The quest log lists quests by id in alphabetical order: ids compare
//! character by character (by code point), a proper prefix first.

use vstd::prelude::*;
use vstd::relations::{sorted_by, total_ordering};
use crate::strings::chars_of;

verus! {

/// Whether `a` sorts no later than `b`.
pub open spec fn text_le(a: Seq<char>, b: Seq<char>) -> bool
    decreases a.len(),
{
    if a.len() == 0 {
        true
    } else if b.len() == 0 {
        false
    } else if (a[0] as int) < (b[0] as int) {
        true
    } else if (a[0] as int) > (b[0] as int) {
        false
    } else {
        text_le(a.drop_first(), b.drop_first())
    }
}

pub open spec fn text_order() -> spec_fn(Seq<char>, Seq<char>) -> bool {
    |a: Seq<char>, b: Seq<char>| text_le(a, b)
}

proof fn lemma_text_le_reflexive(a: Seq<char>)
    ensures
        text_le(a, a),
    decreases a.len(),
{
    if a.len() > 0 {
        lemma_text_le_reflexive(a.drop_first());
    }
}

proof fn lemma_text_le_antisymmetric(a: Seq<char>, b: Seq<char>)
    requires
        text_le(a, b),
        text_le(b, a),
    ensures
        a == b,
    decreases a.len(),
{
    if a.len() > 0 && b.len() > 0 {
        lemma_text_le_antisymmetric(a.drop_first(), b.drop_first());
        assert(a[0] == b[0]);
        assert(a =~= seq![a[0]] + a.drop_first());
        assert(b =~= seq![b[0]] + b.drop_first());
    } else {
        assert(a =~= b);
    }
}

proof fn lemma_text_le_transitive(a: Seq<char>, b: Seq<char>, c: Seq<char>)
    requires
        text_le(a, b),
        text_le(b, c),
    ensures
        text_le(a, c),
    decreases a.len(),
{
    if a.len() > 0 && b.len() > 0 && c.len() > 0 {
        if a[0] == b[0] && b[0] == c[0] {
            lemma_text_le_transitive(a.drop_first(), b.drop_first(), c.drop_first());
        }
    }
}

proof fn lemma_text_le_total(a: Seq<char>, b: Seq<char>)
    ensures
        text_le(a, b) || text_le(b, a),
    decreases a.len(),
{
    if a.len() > 0 && b.len() > 0 {
        lemma_text_le_total(a.drop_first(), b.drop_first());
        if (a[0] as int) == (b[0] as int) {
            assert(a[0] == b[0]);
        }
    }
}

/// Alphabetical order is a total order.
pub proof fn lemma_text_order_total()
    ensures
        total_ordering(text_order()),
{
    assert forall|a: Seq<char>| #[trigger] text_order()(a, a) by {
        lemma_text_le_reflexive(a);
    }
    assert forall|a: Seq<char>, b: Seq<char>| #[trigger] text_order()(a, b) && #[trigger] text_order()(b, a) implies a
        == b by {
        lemma_text_le_antisymmetric(a, b);
    }
    assert forall|a: Seq<char>, b: Seq<char>, c: Seq<char>|
        #[trigger] text_order()(a, b) && #[trigger] text_order()(b, c) implies text_order()(a, c) by {
        lemma_text_le_transitive(a, b, c);
    }
    assert forall|a: Seq<char>, b: Seq<char>| #[trigger] text_order()(a, b) || #[trigger] text_order()(b, a) by {
        lemma_text_le_total(a, b);
    }
}

/// Whether `a` sorts no later than `b`.
pub fn compare_text(a: &str, b: &str) -> (le: bool)
    ensures
        le == text_le(a@, b@),
{
    let ac = chars_of(a);
    let bc = chars_of(b);
    let mut i: usize = 0;
    proof {
        assert(a@.skip(0) =~= a@);
        assert(b@.skip(0) =~= b@);
    }
    while i < ac.len() && i < bc.len()
        invariant
            i <= ac@.len(),
            i <= bc@.len(),
            ac@ == a@,
            bc@ == b@,
            text_le(a@, b@) == text_le(a@.skip(i as int), b@.skip(i as int)),
        decreases ac.len() - i,
    {
        let x = ac[i];
        let y = bc[i];
        proof {
            assert(a@.skip(i as int)[0] == x);
            assert(b@.skip(i as int)[0] == y);
            assert(a@.skip(i as int).drop_first() =~= a@.skip(i + 1));
            assert(b@.skip(i as int).drop_first() =~= b@.skip(i + 1));
        }
        if x < y {
            return true;
        }
        if x > y {
            return false;
        }
        i = i + 1;
    }
    i == ac.len()
}

pub open spec fn id_texts(ids: Seq<String>) -> Seq<Seq<char>> {
    ids.map_values(|id: String| id@)
}

/// Quest ids in alphabetical order.
pub fn sorted_quest_ids(ids: Vec<String>) -> (sorted: Vec<String>)
    ensures
        id_texts(sorted@) == id_texts(ids@).sort_by(text_order()),
{
    broadcast use vstd::seq_lib::group_to_multiset_ensures;
    broadcast use vstd::seq_lib::to_multiset_insert;

    proof {
        lemma_text_order_total();
    }
    let mut sorted: Vec<String> = Vec::new();
    let mut i: usize = 0;
    proof {
        assert(id_texts(sorted@) =~= Seq::<Seq<char>>::empty());
        assert(id_texts(ids@).take(0) =~= Seq::<Seq<char>>::empty());
    }
    while i < ids.len()
        invariant
            i <= ids@.len(),
            total_ordering(text_order()),
            sorted_by(id_texts(sorted@), text_order()),
            id_texts(sorted@).to_multiset() == id_texts(ids@).take(i as int).to_multiset(),
        decreases ids.len() - i,
    {
        let id = &ids[i];
        let mut j: usize = 0;
        while j < sorted.len()
            invariant_except_break
                j <= sorted@.len(),
                forall|k: int| 0 <= k < j ==> text_le(#[trigger] sorted@[k]@, id@),
            ensures
                j <= sorted@.len(),
                forall|k: int| 0 <= k < j ==> text_le(#[trigger] sorted@[k]@, id@),
                j < sorted@.len() ==> !text_le(sorted@[j as int]@, id@),
            decreases sorted.len() - j,
        {
            if !compare_text(sorted[j].as_str(), id.as_str()) {
                break;
            }
            j = j + 1;
        }
        let ghost before = id_texts(sorted@);
        sorted.insert(j, id.clone());
        proof {
            let after = id_texts(sorted@);
            assert(after =~= before.insert(j as int, id@));
            assert(id_texts(ids@).take(i + 1) =~= id_texts(ids@).take(i as int).push(id@));
            vstd::seq_lib::to_multiset_insert(before, j as int, id@);
            vstd::seq_lib::to_multiset_build(id_texts(ids@).take(i as int), id@);
            assert forall|a: int, b: int| 0 <= a < b < after.len() implies #[trigger] text_order()(
                after[a],
                after[b],
            ) by {
                if a < j && b == j {
                    assert(before[a] == sorted@[a]@);
                } else if a == j {
                    assert(j < before.len());
                    lemma_text_le_total(before[j as int], id@);
                    if b - 1 > j {
                        assert(text_order()(before[j as int], before[b - 1]));
                        lemma_text_le_transitive(id@, before[j as int], before[b - 1]);
                    }
                } else if a < j && b > j {
                    assert(text_order()(before[a], before[b - 1]));
                } else if a > j {
                    assert(text_order()(before[a - 1], before[b - 1]));
                } else {
                    assert(text_order()(before[a], before[b]));
                }
            }
        }
        i = i + 1;
    }
    proof {
        assert(id_texts(ids@).take(ids@.len() as int) =~= id_texts(ids@));
        id_texts(ids@).lemma_sort_by_ensures(text_order());
        vstd::seq_lib::lemma_sorted_unique(id_texts(sorted@), id_texts(ids@).sort_by(text_order()), text_order());
    }
    sorted
}

} // verus!
