//! Sentiment: one overall classification from the classifications of the segments.
//!
//! A confidence is a whole number of millionths: `900_000` stands for 0.9.

use crate::text::contains_text;
use crate::text::str_eq;
use crate::text::views;
use vstd::prelude::*;

verus! {

/// The confidence that a classification gives to one label.
#[derive(Debug, PartialEq, Eq)]
pub struct ScoreEntry {
    pub label: String,
    /// Confidence in millionths.
    pub score: u32,
}

/// The sentiment of one segment, or of the whole: a label and the confidence for each label.
#[derive(Debug, PartialEq, Eq)]
pub struct SentimentData {
    pub sentiment: String,
    pub sentiment_score: Vec<ScoreEntry>,
}

/// What a sentiment record says: its label, and label and confidence of each score entry.
pub struct Reading {
    pub label: Seq<char>,
    pub scores: Seq<(Seq<char>, nat)>,
}

/// What a score list holds: label and confidence of each entry.
pub open spec fn score_views(entries: Seq<ScoreEntry>) -> Seq<(Seq<char>, nat)> {
    entries.map_values(|e: ScoreEntry| (e.label@, e.score as nat))
}

impl View for SentimentData {
    type V = Reading;

    open spec fn view(&self) -> Reading {
        Reading { label: self.sentiment@, scores: score_views(self.sentiment_score@) }
    }
}

/// What a list of records says.
pub open spec fn readings(records: Seq<SentimentData>) -> Seq<Reading> {
    records.map_values(|r: SentimentData| r@)
}

/// What the records of all segments say, in segment order.
pub open spec fn all_readings(chunks: Seq<Vec<SentimentData>>) -> Seq<Reading>
    decreases chunks.len(),
{
    if chunks.len() == 0 {
        Seq::empty()
    } else {
        all_readings(chunks.drop_last()) + readings(chunks.last()@)
    }
}

/// The confidence that `scores` gives to `label`: that of the first entry with this label,
/// zero where there is none.
pub open spec fn score_of(scores: Seq<(Seq<char>, nat)>, label: Seq<char>) -> nat
    decreases scores.len(),
{
    if scores.len() == 0 {
        0
    } else if scores[0].0 == label {
        scores[0].1
    } else {
        score_of(scores.drop_first(), label)
    }
}

/// How many readings of `all` carry `label`.
pub open spec fn count_of(all: Seq<Reading>, label: Seq<char>) -> nat
    decreases all.len(),
{
    if all.len() == 0 {
        0
    } else if all.last().label == label {
        count_of(all.drop_last(), label) + 1
    } else {
        count_of(all.drop_last(), label)
    }
}

/// The distinct labels that the readings of `all` carry, in the order in which they first
/// occur.
pub open spec fn sentiments_of(all: Seq<Reading>) -> Seq<Seq<char>>
    decreases all.len(),
{
    if all.len() == 0 {
        Seq::empty()
    } else {
        let before = sentiments_of(all.drop_last());
        if before.contains(all.last().label) {
            before
        } else {
            before.push(all.last().label)
        }
    }
}

/// The label of `labels` that most readings of `all` carry; of several such labels the
/// first. Without labels it is `NEUTRAL`.
pub open spec fn most_common(labels: Seq<Seq<char>>, all: Seq<Reading>) -> Seq<char>
    decreases labels.len(),
{
    if labels.len() == 0 {
        "NEUTRAL"@
    } else if labels.len() == 1 {
        labels[0]
    } else {
        let best = most_common(labels.drop_last(), all);
        if count_of(all, labels.last()) > count_of(all, best) {
            labels.last()
        } else {
            best
        }
    }
}

/// The majority label of `all`: the label that most readings carry, and of several such
/// labels the one that occurs first.
pub open spec fn majority(all: Seq<Reading>) -> Seq<char> {
    most_common(sentiments_of(all), all)
}

/// `known`, followed by the labels of `scores` that are new, in order.
pub open spec fn add_labels(known: Seq<Seq<char>>, scores: Seq<(Seq<char>, nat)>) -> Seq<
    Seq<char>,
>
    decreases scores.len(),
{
    if scores.len() == 0 {
        known
    } else {
        let before = add_labels(known, scores.drop_last());
        if before.contains(scores.last().0) {
            before
        } else {
            before.push(scores.last().0)
        }
    }
}

/// The distinct score labels of `all`, in the order in which they first occur.
pub open spec fn score_labels(all: Seq<Reading>) -> Seq<Seq<char>>
    decreases all.len(),
{
    if all.len() == 0 {
        Seq::empty()
    } else {
        add_labels(score_labels(all.drop_last()), all.last().scores)
    }
}

/// The sum over the readings of `all` of the confidence that each gives to `label`.
pub open spec fn total_of(all: Seq<Reading>, label: Seq<char>) -> nat
    decreases all.len(),
{
    if all.len() == 0 {
        0
    } else {
        total_of(all.drop_last(), label) + score_of(all.last().scores, label)
    }
}

/// The confidence for `label` averaged over all readings of `all`, a reading without the
/// label counting as zero; the quotient is rounded down.
pub open spec fn average_of(all: Seq<Reading>, label: Seq<char>) -> nat
    recommends
        all.len() > 0,
{
    total_of(all, label) / all.len()
}

/// The averaged confidence for each score label of `all`.
pub open spec fn averaged(all: Seq<Reading>) -> Seq<(Seq<char>, nat)> {
    score_labels(all).map_values(|l: Seq<char>| (l, average_of(all, l)))
}

/// The overall sentiment of the readings `all`: without readings `NEUTRAL` and no scores,
/// else the majority label and the averaged scores.
pub open spec fn overall(all: Seq<Reading>) -> Reading {
    if all.len() == 0 {
        Reading { label: "NEUTRAL"@, scores: Seq::empty() }
    } else {
        Reading { label: majority(all), scores: averaged(all) }
    }
}

/// The overall sentiment of an analysis.
pub open spec fn combined_sentiment(chunks: Seq<Vec<SentimentData>>) -> Reading {
    overall(all_readings(chunks))
}

impl ScoreEntry {
    /// A copy of this entry.
    pub fn duplicate(&self) -> (r: ScoreEntry)
        ensures
            r == *self,
    {
        ScoreEntry { label: self.label.clone(), score: self.score }
    }
}

impl SentimentData {
    /// A record that says the same.
    pub fn duplicate(&self) -> (r: SentimentData)
        ensures
            r@ == self@,
    {
        let mut entries: Vec<ScoreEntry> = Vec::new();
        let mut i: usize = 0;
        while i < self.sentiment_score.len()
            invariant
                i <= self.sentiment_score.len(),
                entries@ == self.sentiment_score@.take(i as int),
            decreases self.sentiment_score.len() - i,
        {
            entries.push(self.sentiment_score[i].duplicate());
            assert(self.sentiment_score@.take(i + 1) =~= self.sentiment_score@.take(i as int).push(
                self.sentiment_score@[i as int],
            ));
            i += 1;
        }
        assert(self.sentiment_score@.take(self.sentiment_score.len() as int)
            =~= self.sentiment_score@);
        SentimentData { sentiment: self.sentiment.clone(), sentiment_score: entries }
    }
}

/// Collects the sentiment records of all segments, in segment order.
pub fn flatten_sentiments(chunks: &[Vec<SentimentData>]) -> (all: Vec<SentimentData>)
    ensures
        readings(all@) == all_readings(chunks@),
{
    let mut all: Vec<SentimentData> = Vec::new();
    let mut i: usize = 0;
    assert(readings(all@) =~= all_readings(chunks@.take(0)));
    while i < chunks.len()
        invariant
            i <= chunks.len(),
            readings(all@) == all_readings(chunks@.take(i as int)),
        decreases chunks.len() - i,
    {
        let chunk = &chunks[i];
        let ghost base = readings(all@);
        let mut j: usize = 0;
        while j < chunk.len()
            invariant
                j <= chunk.len(),
                readings(all@) =~= base + readings(chunk@).take(j as int),
            decreases chunk.len() - j,
        {
            let ghost before = readings(all@);
            all.push(chunk[j].duplicate());
            assert(readings(all@) =~= before.push(chunk@[j as int]@));
            assert(readings(chunk@).take(j + 1) =~= readings(chunk@).take(j as int).push(
                chunk@[j as int]@,
            ));
            j += 1;
        }
        assert(readings(chunk@).take(chunk.len() as int) =~= readings(chunk@));
        assert(chunks@.take(i + 1).drop_last() =~= chunks@.take(i as int));
        i += 1;
    }
    assert(chunks@.take(chunks.len() as int) =~= chunks@);
    all
}

/// Counts the records that carry `label`.
pub fn count_label(all: &Vec<SentimentData>, label: &str) -> (n: usize)
    ensures
        n == count_of(readings(all@), label@),
{
    let mut n: usize = 0;
    let mut i: usize = 0;
    assert(readings(all@).take(0) =~= Seq::<Reading>::empty());
    while i < all.len()
        invariant
            i <= all.len(),
            n <= i,
            n == count_of(readings(all@).take(i as int), label@),
        decreases all.len() - i,
    {
        assert(readings(all@).take(i + 1).drop_last() =~= readings(all@).take(i as int));
        if str_eq(all[i].sentiment.as_str(), label) {
            n += 1;
        }
        i += 1;
    }
    assert(readings(all@).take(all.len() as int) =~= readings(all@));
    n
}

/// The distinct labels that the records carry, in the order in which they first occur.
pub fn distinct_sentiments(all: &Vec<SentimentData>) -> (labels: Vec<String>)
    ensures
        views(labels@) == sentiments_of(readings(all@)),
{
    let mut labels: Vec<String> = Vec::new();
    let mut i: usize = 0;
    assert(views(labels@) =~= sentiments_of(readings(all@).take(0)));
    while i < all.len()
        invariant
            i <= all.len(),
            views(labels@) == sentiments_of(readings(all@).take(i as int)),
        decreases all.len() - i,
    {
        assert(readings(all@).take(i + 1).drop_last() =~= readings(all@).take(i as int));
        if !contains_text(&labels, all[i].sentiment.as_str()) {
            let ghost before = views(labels@);
            labels.push(all[i].sentiment.clone());
            assert(views(labels@) =~= before.push(all@[i as int].sentiment@));
        }
        i += 1;
    }
    assert(readings(all@).take(all.len() as int) =~= readings(all@));
    labels
}

/// The label that most records carry; of several such labels the one that occurs first;
/// `NEUTRAL` where there is no record.
pub fn majority_label(all: &Vec<SentimentData>) -> (label: String)
    ensures
        label@ == majority(readings(all@)),
{
    let labels = distinct_sentiments(all);
    if labels.len() == 0 {
        return String::from_str("NEUTRAL");
    }
    let mut best: usize = 0;
    let mut best_count: usize = count_label(all, labels[0].as_str());
    let mut i: usize = 1;
    assert(views(labels@).take(1)[0] == labels@[0]@);
    while i < labels.len()
        invariant
            1 <= i <= labels.len(),
            best < i,
            views(labels@) == sentiments_of(readings(all@)),
            labels@[best as int]@ == most_common(views(labels@).take(i as int), readings(all@)),
            best_count == count_of(readings(all@), labels@[best as int]@),
        decreases labels.len() - i,
    {
        assert(views(labels@).take(i + 1).drop_last() =~= views(labels@).take(i as int));
        assert(views(labels@).take(i + 1).last() == labels@[i as int]@);
        let count = count_label(all, labels[i].as_str());
        if count > best_count {
            best = i;
            best_count = count;
        }
        i += 1;
    }
    assert(views(labels@).take(labels.len() as int) =~= views(labels@));
    labels[best].clone()
}

/// The confidence that `entries` gives to `label`: that of the first entry with this label,
/// zero where there is none.
pub fn lookup_score(entries: &Vec<ScoreEntry>, label: &str) -> (score: u32)
    ensures
        score == score_of(score_views(entries@), label@),
{
    let mut i: usize = 0;
    assert(score_views(entries@).skip(0) =~= score_views(entries@));
    while i < entries.len()
        invariant
            i <= entries.len(),
            score_of(score_views(entries@), label@) == score_of(
                score_views(entries@).skip(i as int),
                label@,
            ),
        decreases entries.len() - i,
    {
        if str_eq(entries[i].label.as_str(), label) {
            return entries[i].score;
        }
        assert(score_views(entries@).skip(i as int).drop_first() =~= score_views(entries@).skip(
            i + 1,
        ));
        i += 1;
    }
    0
}

/// The distinct score labels of the records, in the order in which they first occur.
pub fn distinct_score_labels(all: &Vec<SentimentData>) -> (labels: Vec<String>)
    ensures
        views(labels@) == score_labels(readings(all@)),
{
    let mut labels: Vec<String> = Vec::new();
    let mut i: usize = 0;
    assert(views(labels@) =~= score_labels(readings(all@).take(0)));
    while i < all.len()
        invariant
            i <= all.len(),
            views(labels@) == score_labels(readings(all@).take(i as int)),
        decreases all.len() - i,
    {
        assert(readings(all@).take(i + 1).drop_last() =~= readings(all@).take(i as int));
        let entries = &all[i].sentiment_score;
        let ghost known = views(labels@);
        let ghost scores = score_views(entries@);
        let mut j: usize = 0;
        assert(scores.take(0) =~= Seq::<(Seq<char>, nat)>::empty());
        while j < entries.len()
            invariant
                j <= entries.len(),
                scores == score_views(entries@),
                views(labels@) == add_labels(known, scores.take(j as int)),
            decreases entries.len() - j,
        {
            assert(scores.take(j + 1).drop_last() =~= scores.take(j as int));
            if !contains_text(&labels, entries[j].label.as_str()) {
                let ghost before = views(labels@);
                labels.push(entries[j].label.clone());
                assert(views(labels@) =~= before.push(entries@[j as int].label@));
            }
            j += 1;
        }
        assert(scores.take(entries.len() as int) =~= scores);
        i += 1;
    }
    assert(readings(all@).take(all.len() as int) =~= readings(all@));
    labels
}

/// The sum over the records of the confidence that each gives to `label`.
pub fn total_score(all: &Vec<SentimentData>, label: &str) -> (total: u128)
    ensures
        total == total_of(readings(all@), label@),
        total <= all.len() * 0xffff_ffff,
{
    let mut total: u128 = 0;
    let mut i: usize = 0;
    assert(readings(all@).take(0) =~= Seq::<Reading>::empty());
    while i < all.len()
        invariant
            i <= all.len(),
            total == total_of(readings(all@).take(i as int), label@),
            total <= i * 0xffff_ffff,
        decreases all.len() - i,
    {
        assert(readings(all@).take(i + 1).drop_last() =~= readings(all@).take(i as int));
        let score = lookup_score(&all[i].sentiment_score, label);
        total = total + score as u128;
        i += 1;
    }
    assert(readings(all@).take(all.len() as int) =~= readings(all@));
    total
}

/// The confidence for `label` averaged over all records, a record without the label
/// counting as zero.
pub fn average_score(all: &Vec<SentimentData>, label: &str) -> (average: u32)
    requires
        all.len() > 0,
    ensures
        average == average_of(readings(all@), label@),
{
    let total = total_score(all, label);
    let n = all.len() as u128;
    assert(total / n <= 0xffff_ffff) by (nonlinear_arith)
        requires
            total <= n * 0xffff_ffff,
            n > 0,
    ;
    (total / n) as u32
}

/// The averaged confidence for each score label of the records.
pub fn average_scores(all: &Vec<SentimentData>) -> (scores: Vec<ScoreEntry>)
    requires
        all.len() > 0,
    ensures
        score_views(scores@) == averaged(readings(all@)),
{
    let labels = distinct_score_labels(all);
    let mut scores: Vec<ScoreEntry> = Vec::new();
    let mut i: usize = 0;
    while i < labels.len()
        invariant
            i <= labels.len(),
            all.len() > 0,
            views(labels@) == score_labels(readings(all@)),
            score_views(scores@) =~= averaged(readings(all@)).take(i as int),
        decreases labels.len() - i,
    {
        let average = average_score(all, labels[i].as_str());
        let ghost before = score_views(scores@);
        let ghost l = views(labels@)[i as int];
        assert(l == labels@[i as int]@);
        scores.push(ScoreEntry { label: labels[i].clone(), score: average });
        assert(score_views(scores@) =~= before.push((l, average as nat)));
        assert(averaged(readings(all@))[i as int] == (l, average_of(readings(all@), l)));
        assert(averaged(readings(all@)).take(i + 1) =~= averaged(readings(all@)).take(
            i as int,
        ).push(averaged(readings(all@))[i as int]));
        i += 1;
    }
    assert(averaged(readings(all@)).take(labels.len() as int) =~= averaged(readings(all@)));
    scores
}

/// The overall sentiment of records: the majority label and the averaged scores; without
/// records `NEUTRAL` and no scores.
pub fn summarize(all: &Vec<SentimentData>) -> (r: SentimentData)
    ensures
        r@ == overall(readings(all@)),
{
    if all.len() == 0 {
        let r = SentimentData { sentiment: String::from_str("NEUTRAL"), sentiment_score: Vec::new() };
        assert(score_views(r.sentiment_score@) =~= Seq::<(Seq<char>, nat)>::empty());
        return r;
    }
    let label = majority_label(all);
    let scores = average_scores(all);
    SentimentData { sentiment: label, sentiment_score: scores }
}

/// Combines the sentiment records of all segments into one: the majority label, and for
/// each score label the confidence averaged over all records.
pub fn combine_sentiment_data(sentiments: &[Vec<SentimentData>]) -> (r: SentimentData)
    ensures
        r@ == combined_sentiment(sentiments@),
{
    let all = flatten_sentiments(sentiments);
    summarize(&all)
}

} // verus!
