//! What the overall sentiment is: the label that most records carry, and for every label
//! the confidence averaged over all records.

use crate::sentiment::add_labels;
use crate::sentiment::average_of;
use crate::sentiment::averaged;
use crate::sentiment::count_of;
use crate::sentiment::majority;
use crate::sentiment::most_common;
use crate::sentiment::overall;
use crate::sentiment::score_labels;
use crate::sentiment::score_of;
use crate::sentiment::sentiments_of;
use crate::sentiment::total_of;
use crate::sentiment::Reading;
use vstd::prelude::*;

verus! {

/// Whether `scores` has an entry for `label`.
pub open spec fn lists(scores: Seq<(Seq<char>, nat)>, label: Seq<char>) -> bool {
    exists|i: int| 0 <= i < scores.len() && (#[trigger] scores[i]).0 == label
}

/// The labels that the readings carry are those of `sentiments_of`, and a label that none
/// carries is counted zero times.
proof fn lemma_sentiments_of(all: Seq<Reading>)
    ensures
        forall|i: int| 0 <= i < all.len() ==> sentiments_of(all).contains((#[trigger] all[i]).label),
        forall|l: Seq<char>| !sentiments_of(all).contains(l) ==> count_of(all, l) == 0,
        forall|l: Seq<char>| sentiments_of(all).contains(l) ==> count_of(all, l) > 0,
    decreases all.len(),
{
    if all.len() > 0 {
        let front = all.drop_last();
        lemma_sentiments_of(front);
        let before = sentiments_of(front);
        let labels = sentiments_of(all);
        let last = all.last().label;
        assert forall|l: Seq<char>| before.contains(l) implies labels.contains(l) by {
            let k = choose|k: int| 0 <= k < before.len() && before[k] == l;
            assert(labels[k] == l);
        }
        if !before.contains(last) {
            assert(labels[labels.len() - 1] == last);
        }
        assert forall|i: int| 0 <= i < all.len() implies labels.contains((#[trigger] all[i]).label) by {
            if i < front.len() {
                assert(front[i] == all[i]);
            }
        }
        assert(labels.contains(last));
        assert forall|l: Seq<char>| !labels.contains(l) implies count_of(all, l) == 0 by {
            if before.contains(l) {
                assert(labels.contains(l));
            }
            assert(!before.contains(l));
            assert(count_of(front, l) == 0);
            assert(last != l);
        }
        assert forall|l: Seq<char>| labels.contains(l) implies count_of(all, l) > 0 by {
            if !before.contains(l) {
                let k = choose|k: int| 0 <= k < labels.len() && labels[k] == l;
                if k < before.len() {
                    assert(before[k] == l);
                }
            }
        }
    }
}

/// The most common of some labels is one of them, is carried at least as often as each of
/// them, and more often than each that stands before it.
proof fn lemma_most_common(labels: Seq<Seq<char>>, all: Seq<Reading>)
    requires
        labels.len() > 0,
    ensures
        exists|k: int|
            0 <= k < labels.len() && #[trigger] labels[k] == most_common(labels, all) && forall|
                j: int,
            |
                0 <= j < k ==> count_of(all, #[trigger] labels[j]) < count_of(
                    all,
                    most_common(labels, all),
                ),
        forall|j: int|
            0 <= j < labels.len() ==> count_of(all, #[trigger] labels[j]) <= count_of(
                all,
                most_common(labels, all),
            ),
    decreases labels.len(),
{
    let m = most_common(labels, all);
    if labels.len() == 1 {
        assert(labels[0] == m);
    } else {
        let front = labels.drop_last();
        lemma_most_common(front, all);
        let best = most_common(front, all);
        let k = choose|k: int|
            0 <= k < front.len() && #[trigger] front[k] == best && forall|j: int|
                0 <= j < k ==> count_of(all, #[trigger] front[j]) < count_of(all, best);
        if count_of(all, labels.last()) > count_of(all, best) {
            let n = labels.len() - 1;
            assert(labels[n] == m);
            assert forall|j: int| 0 <= j < n implies count_of(all, #[trigger] labels[j])
                < count_of(all, m) by {
                assert(front[j] == labels[j]);
            }
        } else {
            assert(labels[k] == m);
            assert forall|j: int| 0 <= j < k implies count_of(all, #[trigger] labels[j])
                < count_of(all, m) by {
                assert(front[j] == labels[j]);
            }
        }
        assert forall|j: int| 0 <= j < labels.len() implies count_of(all, #[trigger] labels[j])
            <= count_of(all, m) by {
            if j < front.len() {
                assert(front[j] == labels[j]);
            }
        }
    }
}

/// The majority label of some readings is the label of one of them, and no label is
/// carried by more readings.
pub proof fn lemma_majority(all: Seq<Reading>, label: Seq<char>)
    requires
        all.len() > 0,
    ensures
        count_of(all, majority(all)) > 0,
        count_of(all, label) <= count_of(all, majority(all)),
{
    lemma_sentiments_of(all);
    let labels = sentiments_of(all);
    assert(labels.contains(all[0].label));
    lemma_most_common(labels, all);
    let m = majority(all);
    assert(labels.contains(m));
    if labels.contains(label) {
        let j = choose|j: int| 0 <= j < labels.len() && labels[j] == label;
        assert(count_of(all, labels[j]) <= count_of(all, m));
    }
}

/// Of the labels that most readings carry, the majority label is the one that occurs
/// first.
pub proof fn lemma_majority_first(all: Seq<Reading>, j: int)
    requires
        0 <= j < sentiments_of(all).len(),
        count_of(all, sentiments_of(all)[j]) == count_of(all, majority(all)),
    ensures
        exists|k: int| 0 <= k <= j && sentiments_of(all)[k] == majority(all),
{
    let labels = sentiments_of(all);
    lemma_most_common(labels, all);
    let k = choose|k: int|
        0 <= k < labels.len() && #[trigger] labels[k] == most_common(labels, all) && forall|
            j: int,
        |
            0 <= j < k ==> count_of(all, #[trigger] labels[j]) < count_of(
                all,
                most_common(labels, all),
            );
    if j < k {
        assert(count_of(all, labels[j]) < count_of(all, majority(all)));
    }
    assert(0 <= k <= j && labels[k] == majority(all));
}

/// A score list without an entry for a label gives the label no confidence.
proof fn lemma_score_of_unlisted(scores: Seq<(Seq<char>, nat)>, label: Seq<char>)
    requires
        !lists(scores, label),
    ensures
        score_of(scores, label) == 0,
    decreases scores.len(),
{
    if scores.len() > 0 {
        assert(scores[0].0 != label);
        assert forall|i: int| 0 <= i < scores.drop_first().len() implies (#[trigger] scores.drop_first()[i]).0 != label by {
            assert(scores[i + 1].0 != label);
        }
        lemma_score_of_unlisted(scores.drop_first(), label);
    }
}

/// `add_labels` holds the known labels and the labels of the entries, and no others.
proof fn lemma_add_labels(known: Seq<Seq<char>>, scores: Seq<(Seq<char>, nat)>)
    ensures
        forall|l: Seq<char>|
            #[trigger] add_labels(known, scores).contains(l) <==> known.contains(l) || lists(
                scores,
                l,
            ),
    decreases scores.len(),
{
    let out = add_labels(known, scores);
    if scores.len() > 0 {
        let front = scores.drop_last();
        lemma_add_labels(known, front);
        let before = add_labels(known, front);
        let last = scores.last().0;
        assert forall|l: Seq<char>| #[trigger] out.contains(l) <==> known.contains(l) || lists(
            scores,
            l,
        ) by {
            if out.contains(l) {
                let k = choose|k: int| 0 <= k < out.len() && out[k] == l;
                if k < before.len() {
                    assert(before[k] == l);
                    assert(before.contains(l));
                    if lists(front, l) {
                        let i = choose|i: int| 0 <= i < front.len() && (#[trigger] front[i]).0 == l;
                        assert(scores[i].0 == l);
                    }
                } else {
                    assert(scores[scores.len() - 1].0 == l);
                }
            }
            if known.contains(l) || lists(scores, l) {
                if lists(scores, l) && !known.contains(l) {
                    let i = choose|i: int| 0 <= i < scores.len() && (#[trigger] scores[i]).0 == l;
                    if i < front.len() {
                        assert(front[i].0 == l);
                        assert(lists(front, l));
                    }
                }
                if before.contains(l) {
                    let k = choose|k: int| 0 <= k < before.len() && before[k] == l;
                    assert(out[k] == l);
                } else {
                    assert(l == last);
                    assert(out[out.len() - 1] == l);
                }
            }
        }
    }
}

/// The score labels of some readings are the labels that their score lists have entries
/// for; a label that is no score label has the total zero.
proof fn lemma_score_labels(all: Seq<Reading>)
    ensures
        forall|l: Seq<char>| !score_labels(all).contains(l) ==> total_of(all, l) == 0,
    decreases all.len(),
{
    if all.len() > 0 {
        let front = all.drop_last();
        lemma_score_labels(front);
        lemma_add_labels(score_labels(front), all.last().scores);
        assert forall|l: Seq<char>| !score_labels(all).contains(l) implies total_of(all, l)
            == 0 by {
            assert(add_labels(score_labels(front), all.last().scores).contains(l)
                <==> score_labels(front).contains(l) || lists(all.last().scores, l));
            assert(!score_labels(front).contains(l));
            assert(!lists(all.last().scores, l));
            lemma_score_of_unlisted(all.last().scores, l);
            assert(total_of(front, l) == 0);
        }
    }
}

/// Looking a label up in the averaged scores of some labels gives its average, where the
/// label is among them.
proof fn lemma_lookup_mapped(labels: Seq<Seq<char>>, all: Seq<Reading>, l: Seq<char>)
    ensures
        score_of(labels.map_values(|x: Seq<char>| (x, average_of(all, x))), l) == if labels.contains(
            l,
        ) {
            average_of(all, l)
        } else {
            0
        },
    decreases labels.len(),
{
    let mapped = labels.map_values(|x: Seq<char>| (x, average_of(all, x)));
    if labels.len() > 0 {
        assert(mapped.drop_first() =~= labels.drop_first().map_values(
            |x: Seq<char>| (x, average_of(all, x)),
        ));
        lemma_lookup_mapped(labels.drop_first(), all, l);
        if labels[0] == l {
            assert(labels.contains(l));
        } else if labels.drop_first().contains(l) {
            let k = choose|k: int| 0 <= k < labels.drop_first().len() && labels.drop_first()[k] == l;
            assert(labels[k + 1] == l);
        } else if labels.contains(l) {
            let k = choose|k: int| 0 <= k < labels.len() && labels[k] == l;
            assert(labels.drop_first()[k - 1] == l);
        }
    }
}

/// The overall scores give every label its average over all readings, a reading without
/// the label counting as zero.
pub proof fn lemma_averaged(all: Seq<Reading>, label: Seq<char>)
    requires
        all.len() > 0,
    ensures
        score_of(averaged(all), label) == average_of(all, label),
{
    lemma_lookup_mapped(score_labels(all), all, label);
    lemma_score_labels(all);
}

/// The overall sentiment of a single reading is this reading: its label, and for every
/// label the confidence that it gives.
pub proof fn lemma_single_reading(reading: Reading, label: Seq<char>)
    ensures
        overall(seq![reading]).label == reading.label,
        score_of(overall(seq![reading]).scores, label) == score_of(reading.scores, label),
{
    let all = seq![reading];
    assert(all.drop_last() =~= Seq::<Reading>::empty());
    assert(sentiments_of(all.drop_last()) =~= Seq::<Seq<char>>::empty());
    assert(sentiments_of(all) =~= seq![reading.label]);
    lemma_averaged(all, label);
    assert(total_of(all.drop_last(), label) == 0);
}

/// Adding the labels of a score list to distinct labels leaves the labels distinct.
proof fn lemma_add_labels_distinct(known: Seq<Seq<char>>, scores: Seq<(Seq<char>, nat)>)
    requires
        known.no_duplicates(),
    ensures
        add_labels(known, scores).no_duplicates(),
    decreases scores.len(),
{
    if scores.len() > 0 {
        lemma_add_labels_distinct(known, scores.drop_last());
    }
}

/// The overall scores have one entry for each label.
pub proof fn lemma_score_labels_distinct(all: Seq<Reading>)
    ensures
        score_labels(all).no_duplicates(),
    decreases all.len(),
{
    if all.len() > 0 {
        lemma_score_labels_distinct(all.drop_last());
        lemma_add_labels_distinct(score_labels(all.drop_last()), all.last().scores);
    }
}

} // verus!
