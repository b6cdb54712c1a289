//! Answers: the classes with their labels, best one first.
use vstd::prelude::*;

use crate::text::{decimal, decimal_text};

verus! {

/// A class and the bits of its score, a 32-bit float.
pub struct GenderScore {
    pub label: String,
    pub score: u32,
}

/// The answer to a request: the label of the best class, and all classes, best one first.
pub struct GenderResponse {
    pub label: String,
    pub scores: Vec<GenderScore>,
}

/// What a `GenderScore` holds.
#[verifier::ext_equal]
pub struct ScoreView {
    pub label: Seq<char>,
    pub score: u32,
}

/// What a `GenderResponse` holds.
#[verifier::ext_equal]
pub struct ResponseView {
    pub label: Seq<char>,
    pub scores: Seq<ScoreView>,
}

impl View for GenderScore {
    type V = ScoreView;

    open spec fn view(&self) -> ScoreView {
        ScoreView { label: self.label@, score: self.score }
    }
}

impl View for GenderResponse {
    type V = ResponseView;

    open spec fn view(&self) -> ResponseView {
        ResponseView {
            label: self.label@,
            scores: self.scores@.map_values(|score: GenderScore| score@),
        }
    }
}

/// The bits of the 32-bit float -0, the least bits with the sign set.
pub const NEGATIVE: u32 = 0x8000_0000;

/// Where the 32-bit float with these bits stands in the total order of floats: negative ones
/// come before positive ones, and farther from zero means farther down or up.
pub open spec fn rank(bits: u32) -> int {
    if bits < NEGATIVE {
        bits as int
    } else {
        NEGATIVE - 1 - bits
    }
}

/// Whether the first float stands before the second one in the total order of floats.
pub fn ranks_below(a: u32, b: u32) -> (before: bool)
    ensures
        before == (rank(a) < rank(b)),
        a < 0x8000_0000 && b < 0x8000_0000 ==> before == (a < b),
        a >= 0x8000_0000 && b >= 0x8000_0000 ==> before == (a > b),
        a >= 0x8000_0000 && b < 0x8000_0000 ==> before,
        a < 0x8000_0000 && b >= 0x8000_0000 ==> !before,
{
    if a < NEGATIVE {
        b < NEGATIVE && a < b
    } else {
        b < NEGATIVE || b < a
    }
}

/// The label under a key: that of the first entry with it.
pub open spec fn lookup(entries: Seq<(String, String)>, key: Seq<char>) -> Option<Seq<char>>
    decreases entries.len(),
{
    if entries.len() == 0 {
        None
    } else if entries[0].0@ == key {
        Some(entries[0].1@)
    } else {
        lookup(entries.drop_first(), key)
    }
}

/// The label of class `idx`: the one under its number, or the number itself.
pub open spec fn label_of(entries: Seq<(String, String)>, idx: nat) -> Seq<char> {
    match lookup(entries, decimal(idx)) {
        Some(label) => label,
        None => decimal(idx),
    }
}

/// Where keys are told apart, each entry's label is found under its key.
pub proof fn lookup_finds_each_entry(entries: Seq<(String, String)>, i: int)
    requires
        crate::config::distinct_keys(entries),
        0 <= i < entries.len(),
    ensures
        lookup(entries, entries[i].0@) == Some(entries[i].1@),
    decreases entries.len(),
{
    if i > 0 {
        let rest = entries.drop_first();
        assert(entries[0].0@ != entries[i].0@);
        assert forall|a: int, b: int| 0 <= a < b < rest.len() implies (#[trigger] rest[a]).0@ != (
        #[trigger] rest[b]).0@ by {
            assert(rest[a] == entries[a + 1]);
            assert(rest[b] == entries[b + 1]);
        }
        assert(rest[i - 1] == entries[i]);
        lookup_finds_each_entry(rest, i - 1);
    }
}

/// No label is found under a key that no entry has.
pub proof fn lookup_finds_no_other(entries: Seq<(String, String)>, key: Seq<char>)
    requires
        forall|i: int| 0 <= i < entries.len() ==> (#[trigger] entries[i]).0@ != key,
    ensures
        lookup(entries, key) == None::<Seq<char>>,
    decreases entries.len(),
{
    if entries.len() > 0 {
        let rest = entries.drop_first();
        assert forall|i: int| 0 <= i < rest.len() implies (#[trigger] rest[i]).0@ != key by {
            assert(rest[i] == entries[i + 1]);
        }
        lookup_finds_no_other(rest, key);
    }
}

/// The label of class `idx`.
pub fn class_label(entries: &Vec<(String, String)>, idx: usize) -> (label: String)
    ensures
        label@ == label_of(entries@, idx as nat),
{
    let key = decimal_text(idx);
    let mut i: usize = 0;
    assert(entries@.skip(0) =~= entries@);
    while i < entries.len()
        invariant
            i <= entries.len(),
            key@ == decimal(idx as nat),
            lookup(entries@, key@) == lookup(entries@.skip(i as int), key@),
        decreases entries.len() - i,
    {
        assert(entries@.skip(i as int).drop_first() =~= entries@.skip(i + 1));
        if entries[i].0 == key {
            return entries[i].1.clone();
        }
        i = i + 1;
    }
    key
}

/// Class `a` comes before class `b`: its score is better, or as good and `a` is the lesser
/// number.
pub open spec fn comes_before(scores: Seq<u32>, a: int, b: int) -> bool {
    rank(scores[a]) > rank(scores[b]) || (rank(scores[a]) == rank(scores[b]) && a < b)
}

/// `order` holds the number of each class once, and better classes before others.
pub open spec fn is_order(scores: Seq<u32>, order: Seq<usize>) -> bool {
    &&& order.len() == scores.len()
    &&& forall|i: int| 0 <= i < order.len() ==> (#[trigger] order[i]) < scores.len()
    &&& forall|i: int, j: int|
        0 <= i < j < order.len() ==> comes_before(
            scores,
            #[trigger] order[i] as int,
            #[trigger] order[j] as int,
        )
}

/// The answer that names the classes in this order.
pub open spec fn answer_in_order(
    entries: Seq<(String, String)>,
    scores: Seq<u32>,
    order: Seq<usize>,
) -> ResponseView {
    ResponseView {
        label: if order.len() == 0 {
            Seq::empty()
        } else {
            label_of(entries, order[0] as nat)
        },
        scores: order.map_values(
            |idx: usize|
                ScoreView { label: label_of(entries, idx as nat), score: scores[idx as int] },
        ),
    }
}

/// `answer` names each class once, best one first, and the label of the best class.
pub open spec fn is_answer(
    entries: Seq<(String, String)>,
    scores: Seq<u32>,
    answer: ResponseView,
) -> bool {
    exists|order: Seq<usize>| #[trigger]
        is_order(scores, order) && answer == answer_in_order(entries, scores, order)
}

/// The numbers of the classes, best class first.
pub fn best_first(scores: &Vec<u32>) -> (order: Vec<usize>)
    ensures
        is_order(scores@, order@),
{
    let mut order: Vec<usize> = Vec::new();
    let mut idx: usize = 0;
    while idx < scores.len()
        invariant
            idx <= scores.len(),
            order@.len() == idx,
            forall|i: int| 0 <= i < idx ==> (#[trigger] order@[i]) < idx,
            forall|i: int, j: int|
                0 <= i < j < idx ==> comes_before(
                    scores@,
                    #[trigger] order@[i] as int,
                    #[trigger] order@[j] as int,
                ),
        decreases scores.len() - idx,
    {
        let mut place: usize = idx;
        while place > 0 && ranks_below(scores[order[place - 1]], scores[idx])
            invariant
                place <= idx < scores.len(),
                order@.len() == idx,
                forall|i: int| 0 <= i < idx ==> (#[trigger] order@[i]) < idx,
                forall|i: int|
                    place <= i < idx ==> rank(scores@[#[trigger] order@[i] as int]) < rank(
                        scores@[idx as int],
                    ),
            decreases place,
        {
            place = place - 1;
        }
        let ghost before = order@;
        order.insert(place, idx);
        proof {
            assert forall|i: int, j: int| 0 <= i < j < idx + 1 implies comes_before(
                scores@,
                #[trigger] order@[i] as int,
                #[trigger] order@[j] as int,
            ) by {
                let old_i = if i < place {
                    i
                } else {
                    i - 1
                };
                let old_j = if j < place {
                    j
                } else {
                    j - 1
                };
                if i != place {
                    assert(order@[i] == before[old_i]);
                }
                if j != place {
                    assert(order@[j] == before[old_j]);
                }
                if j == place {
                    assert(!(rank(scores@[before[place - 1] as int]) < rank(scores@[idx as int])));
                    if i < place - 1 {
                        assert(comes_before(
                            scores@,
                            before[i] as int,
                            before[place - 1] as int,
                        ));
                    }
                }
            }
        }
        idx = idx + 1;
    }
    order
}

/// The answer for these scores, with the labels under these keys.
pub fn respond(entries: &Vec<(String, String)>, scores: &Vec<u32>) -> (answer: GenderResponse)
    ensures
        is_answer(entries@, scores@, answer@),
{
    let order = best_first(scores);
    let mut named: Vec<GenderScore> = Vec::new();
    let mut i: usize = 0;
    while i < order.len()
        invariant
            i <= order.len(),
            is_order(scores@, order@),
            named@.len() == i,
            forall|j: int|
                0 <= j < i ==> (#[trigger] named@[j])@ == answer_in_order(
                    entries@,
                    scores@,
                    order@,
                ).scores[j],
        decreases order.len() - i,
    {
        let idx = order[i];
        named.push(GenderScore { label: class_label(entries, idx), score: scores[idx] });
        i = i + 1;
    }
    let label = if named.len() == 0 {
        String::new()
    } else {
        named[0].label.clone()
    };
    let answer = GenderResponse { label, scores: named };
    proof {
        let expected = answer_in_order(entries@, scores@, order@);
        assert(answer@.scores =~= expected.scores);
        if order@.len() > 0 {
            assert(answer.scores@[0]@ == expected.scores[0]);
        }
        assert(answer@.label =~= expected.label);
    }
    answer
}

/// Every class has a place in the order, and only one.
pub proof fn order_has_every_class(scores: Seq<u32>, order: Seq<usize>, idx: int)
    requires
        is_order(scores, order),
        0 <= idx < scores.len(),
    ensures
        exists|i: int| 0 <= i < order.len() && order[i] == idx,
        forall|i: int, j: int|
            0 <= i < order.len() && 0 <= j < order.len() && order[i] == order[j] ==> i == j,
{
    let numbers = order.map_values(|k: usize| k as int);
    assert(numbers.no_duplicates()) by {
        assert forall|i: int, j: int|
            0 <= i < numbers.len() && 0 <= j < numbers.len() && i != j implies numbers[i]
            != numbers[j] by {
            if i < j {
                assert(comes_before(scores, order[i] as int, order[j] as int));
            } else {
                assert(comes_before(scores, order[j] as int, order[i] as int));
            }
        }
    }
    numbers.unique_seq_to_set();
    let all = vstd::set_lib::set_int_range(0, scores.len() as int);
    vstd::set_lib::lemma_int_range(0, scores.len() as int);
    assert(numbers.to_set().subset_of(all)) by {
        assert forall|k: int| numbers.to_set().contains(k) implies all.contains(k) by {
            let i = choose|i: int| 0 <= i < numbers.len() && numbers[i] == k;
            assert(order[i] < scores.len());
        }
    }
    vstd::set_lib::lemma_subset_equality(numbers.to_set(), all);
    assert(numbers.to_set().contains(idx));
    let place = choose|i: int| 0 <= i < numbers.len() && numbers[i] == idx;
    assert(order[place] == idx);
    assert forall|i: int, j: int|
        0 <= i < order.len() && 0 <= j < order.len() && order[i] == order[j] implies i == j by {
        assert(numbers[i] == numbers[j]);
    }
}

/// There is only one order: equal scores leave no choice.
pub proof fn order_is_unique(scores: Seq<u32>, a: Seq<usize>, b: Seq<usize>)
    requires
        is_order(scores, a),
        is_order(scores, b),
    ensures
        a == b,
{
    orders_agree(scores, a, b, scores.len() as int);
    assert(a =~= b);
}

/// Two orders agree on the first `n` places.
proof fn orders_agree(scores: Seq<u32>, a: Seq<usize>, b: Seq<usize>, n: int)
    requires
        is_order(scores, a),
        is_order(scores, b),
        0 <= n <= scores.len(),
    ensures
        forall|i: int| 0 <= i < n ==> a[i] == b[i],
    decreases n,
{
    if n > 0 {
        orders_agree(scores, a, b, n - 1);
        let last = n - 1;
        order_has_every_class(scores, b, a[last] as int);
        order_has_every_class(scores, a, b[last] as int);
        let in_b = choose|i: int| 0 <= i < b.len() && b[i] == a[last];
        let in_a = choose|i: int| 0 <= i < a.len() && a[i] == b[last];
        assert(in_b >= last) by {
            if in_b < last {
                assert(a[in_b] == b[in_b]);
            }
        }
        assert(in_a >= last) by {
            if in_a < last {
                assert(a[in_a] == b[in_a]);
            }
        }
        if in_b > last && in_a > last {
            assert(comes_before(scores, b[last] as int, b[in_b] as int));
            assert(comes_before(scores, a[last] as int, a[in_a] as int));
        }
    }
}

/// The scores of an answer go down, and the label of the answer is that of its first score.
pub proof fn best_class_leads(
    entries: Seq<(String, String)>,
    scores: Seq<u32>,
    answer: ResponseView,
)
    requires
        is_answer(entries, scores, answer),
    ensures
        answer.scores.len() == scores.len(),
        answer.label == if scores.len() == 0 {
            Seq::<char>::empty()
        } else {
            answer.scores[0].label
        },
        forall|i: int, j: int|
            0 <= i < j < answer.scores.len() ==> rank((#[trigger] answer.scores[i]).score) >= rank(
                (#[trigger] answer.scores[j]).score,
            ),
{
    let order = choose|order: Seq<usize>| #[trigger]
        is_order(scores, order) && answer == answer_in_order(entries, scores, order);
    assert forall|i: int, j: int| 0 <= i < j < answer.scores.len() implies rank(
        (#[trigger] answer.scores[i]).score,
    ) >= rank((#[trigger] answer.scores[j]).score) by {
        assert(comes_before(scores, order[i] as int, order[j] as int));
    }
}

/// The same scores always have the same answer.
pub proof fn answer_is_unique(
    entries: Seq<(String, String)>,
    scores: Seq<u32>,
    a: ResponseView,
    b: ResponseView,
)
    requires
        is_answer(entries, scores, a),
        is_answer(entries, scores, b),
    ensures
        a == b,
{
    let order_a = choose|order: Seq<usize>| #[trigger]
        is_order(scores, order) && a == answer_in_order(entries, scores, order);
    let order_b = choose|order: Seq<usize>| #[trigger]
        is_order(scores, order) && b == answer_in_order(entries, scores, order);
    order_is_unique(scores, order_a, order_b);
}

/// Every class is in the answer, with its label and its score.
pub proof fn answer_has_every_class(
    entries: Seq<(String, String)>,
    scores: Seq<u32>,
    answer: ResponseView,
    idx: int,
)
    requires
        is_answer(entries, scores, answer),
        0 <= idx < scores.len(),
    ensures
        answer.scores.contains(
            (ScoreView { label: label_of(entries, idx as nat), score: scores[idx] }),
        ),
{
    let order = choose|order: Seq<usize>| #[trigger]
        is_order(scores, order) && answer == answer_in_order(entries, scores, order);
    order_has_every_class(scores, order, idx);
    let place = choose|i: int| 0 <= i < order.len() && order[i] == idx;
    assert(answer.scores[place] == (ScoreView {
        label: label_of(entries, idx as nat),
        score: scores[idx],
    }));
}

/// Floats without the sign bit are ranked by their bits, those with it the other way round, and
/// every one with it below every one without.
pub proof fn floats_are_ranked_by_their_bits(a: u32, b: u32)
    ensures
        a < 0x8000_0000 && b < 0x8000_0000 ==> (rank(a) < rank(b) <==> a < b),
        a >= 0x8000_0000 && b >= 0x8000_0000 ==> (rank(a) < rank(b) <==> a > b),
        a >= 0x8000_0000 && b < 0x8000_0000 ==> rank(a) < rank(b),
        rank(a) == rank(b) <==> a == b,
{
}

/// The label of a class is the one that stands under its number first; a class without one is
/// called by its number.
pub proof fn classes_are_called_by_their_labels(entries: Seq<(String, String)>, idx: nat, k: int)
    ensures
        0 <= k < entries.len() && entries[k].0@ == decimal(idx) && (forall|j: int|
            0 <= j < k ==> (#[trigger] entries[j]).0@ != decimal(idx)) ==> label_of(entries, idx)
            == entries[k].1@,
        (forall|j: int|
            0 <= j < entries.len() ==> (#[trigger] entries[j]).0@ != decimal(idx)) ==> label_of(
            entries,
            idx,
        ) == decimal(idx),
{
    if forall|j: int| 0 <= j < entries.len() ==> (#[trigger] entries[j]).0@ != decimal(idx) {
        lookup_finds_no_other(entries, decimal(idx));
    }
    if 0 <= k < entries.len() && entries[k].0@ == decimal(idx) && (forall|j: int|
        0 <= j < k ==> (#[trigger] entries[j]).0@ != decimal(idx)) {
        lookup_finds_the_first(entries, decimal(idx), k);
    }
}

/// The first entry with a key is found.
proof fn lookup_finds_the_first(entries: Seq<(String, String)>, key: Seq<char>, k: int)
    requires
        0 <= k < entries.len(),
        entries[k].0@ == key,
        forall|j: int| 0 <= j < k ==> (#[trigger] entries[j]).0@ != key,
    ensures
        lookup(entries, key) == Some(entries[k].1@),
    decreases k,
{
    if k > 0 {
        let rest = entries.drop_first();
        assert(entries[0].0@ != key);
        assert forall|j: int| 0 <= j < k - 1 implies (#[trigger] rest[j]).0@ != key by {
            assert(rest[j] == entries[j + 1]);
        }
        lookup_finds_the_first(rest, key, k - 1);
    }
}

/// An answer holds each class exactly once, with the score that it got: `order` tells which class
/// stands where. Of two classes the one with the greater float comes first, floats being compared
/// by their bits, and of two with the same float the one with the lesser number.
pub proof fn answers_are_sorted_classes(
    entries: Seq<(String, String)>,
    scores: Seq<u32>,
    answer: ResponseView,
) -> (order: Seq<usize>)
    requires
        is_answer(entries, scores, answer),
    ensures
        order.len() == scores.len(),
        answer.scores.len() == scores.len(),
        forall|idx: usize| idx < scores.len() ==> #[trigger] order.contains(idx),
        forall|i: int| 0 <= i < order.len() ==> (#[trigger] order[i]) < scores.len(),
        forall|i: int|
            0 <= i < order.len() ==> (#[trigger] answer.scores[i]).score == scores[order[i] as int],
        forall|i: int|
            0 <= i < order.len() ==> (#[trigger] answer.scores[i]).label == label_of(
                entries,
                order[i] as nat,
            ),
        forall|i: int, j: int|
            #![trigger order[i], order[j]]
            0 <= i < j < order.len() ==> {
                let (a, b) = (scores[order[i] as int], scores[order[j] as int]);
                ||| a < 0x8000_0000 && b >= 0x8000_0000
                ||| a < 0x8000_0000 && b < 0x8000_0000 && a > b
                ||| a >= 0x8000_0000 && b >= 0x8000_0000 && a < b
                ||| a == b && order[i] < order[j]
            },
        scores.len() > 0 ==> answer.label == answer.scores[0].label,
        scores.len() == 0 ==> answer.label == Seq::<char>::empty(),
{
    let order = choose|order: Seq<usize>| #[trigger]
        is_order(scores, order) && answer == answer_in_order(entries, scores, order);
    assert forall|idx: usize| idx < scores.len() implies #[trigger] order.contains(idx) by {
        order_has_every_class(scores, order, idx as int);
    }
    order
}

/// Scores and answers are seen whole.
pub proof fn answers_are_seen_whole(score: GenderScore, response: GenderResponse)
    ensures
        score@.label == score.label@,
        score@.score == score.score,
        response@.label == response.label@,
        response@.scores.len() == response.scores@.len(),
        forall|i: int|
            0 <= i < response.scores@.len() ==> (#[trigger] response@.scores[i])
                == response.scores@[i]@,
{
}

} // verus!
