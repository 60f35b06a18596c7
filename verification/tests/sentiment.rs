use distiller::sentiment::combine_sentiment_data;
use distiller::sentiment::ScoreEntry;
use distiller::sentiment::SentimentData;

fn record(label: &str, scores: &[(&str, u32)]) -> SentimentData {
    SentimentData {
        sentiment: label.to_string(),
        sentiment_score: scores
            .iter()
            .map(|(l, s)| ScoreEntry { label: l.to_string(), score: *s })
            .collect(),
    }
}

fn scores_of(data: &SentimentData) -> Vec<(String, u32)> {
    data.sentiment_score.iter().map(|e| (e.label.clone(), e.score)).collect()
}

#[test]
fn single_segment_keeps_its_score_and_label() {
    let chunks = vec![vec![record("POSITIVE", &[("Positive", 900_000)])]];
    let combined = combine_sentiment_data(&chunks);
    assert_eq!(combined.sentiment, "POSITIVE");
    assert_eq!(scores_of(&combined), vec![("Positive".to_string(), 900_000)]);
}

#[test]
fn two_segments_are_averaged() {
    let chunks = vec![
        vec![record("POSITIVE", &[("Positive", 800_000)])],
        vec![record("POSITIVE", &[("Positive", 400_000)])],
    ];
    let combined = combine_sentiment_data(&chunks);
    assert_eq!(scores_of(&combined), vec![("Positive".to_string(), 600_000)]);
}

#[test]
fn majority_of_three_against_one() {
    let chunks = vec![
        vec![record("POSITIVE", &[]), record("NEGATIVE", &[])],
        vec![record("POSITIVE", &[])],
        vec![record("POSITIVE", &[])],
    ];
    assert_eq!(combine_sentiment_data(&chunks).sentiment, "POSITIVE");
}

#[test]
fn tie_goes_to_the_label_seen_first() {
    let chunks = vec![
        vec![record("MIXED", &[])],
        vec![record("NEGATIVE", &[])],
        vec![record("NEGATIVE", &[])],
        vec![record("MIXED", &[])],
    ];
    assert_eq!(combine_sentiment_data(&chunks).sentiment, "MIXED");
}

#[test]
fn no_records_give_neutral_without_scores() {
    let chunks: Vec<Vec<SentimentData>> = vec![vec![], vec![]];
    let combined = combine_sentiment_data(&chunks);
    assert_eq!(combined.sentiment, "NEUTRAL");
    assert!(combined.sentiment_score.is_empty());
    let none: Vec<Vec<SentimentData>> = Vec::new();
    assert_eq!(combine_sentiment_data(&none).sentiment, "NEUTRAL");
}

#[test]
fn absent_label_counts_as_zero() {
    let chunks = vec![
        vec![record("POSITIVE", &[("Positive", 900_000), ("Neutral", 100_000)])],
        vec![record("NEGATIVE", &[("Negative", 700_000)])],
        vec![record("POSITIVE", &[("Positive", 600_000), ("Mixed", 1)])],
    ];
    let combined = combine_sentiment_data(&chunks);
    assert_eq!(
        scores_of(&combined),
        vec![
            ("Positive".to_string(), 500_000),
            ("Neutral".to_string(), 33_333),
            ("Negative".to_string(), 233_333),
            ("Mixed".to_string(), 0),
        ]
    );
}
