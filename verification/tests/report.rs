use ahash::AHashMap;
use chatlog::message::{MediaTag, Message};
use chatlog::report::{
    busiest_day, busiest_hour, descending_order, leading, rank_authors, rank_entries, spam_score,
    top_spammers, top_words,
};
use chatlog::stats::Stats;
use chatlog::text::TextField;

fn said(from: &str, text: &str) -> Message {
    Message {
        kind: Some("message".to_string()),
        from: Some(from.to_string()),
        from_id: None,
        forwarded_from: false,
        forwarded_from_id: false,
        date: None,
        text: Some(TextField::Plain(text.to_string())),
        photo: false,
        file: false,
        media_type: MediaTag::Missing,
        poll: None,
    }
}

fn table(pairs: &[(&str, usize)]) -> AHashMap<String, usize> {
    let mut t = AHashMap::new();
    for (k, v) in pairs {
        t.insert(k.to_string(), *v);
    }
    t
}

#[test]
fn descending_order_is_a_permutation_that_sorts() {
    let counts = vec![3usize, 9, 1, 9, 0, 4];
    let order = descending_order(&counts);
    let mut seen = order.clone();
    seen.sort();
    assert_eq!(seen, vec![0, 1, 2, 3, 4, 5]);
    let listed: Vec<usize> = order.iter().map(|&i| counts[i]).collect();
    assert_eq!(listed, vec![9, 9, 4, 3, 1, 0]);
    assert!(descending_order(&Vec::new()).is_empty());
    assert_eq!(descending_order(&vec![7]), vec![0]);
}

fn pairs(items: &[(&str, usize)]) -> Vec<(String, usize)> {
    items.iter().map(|(k, v)| (k.to_string(), *v)).collect()
}

#[test]
fn rank_entries_puts_the_largest_count_first() {
    let ranked = rank_entries(&pairs(&[("a", 2), ("b", 7), ("c", 0), ("d", 5)]));
    assert_eq!(ranked, pairs(&[("b", 7), ("d", 5), ("a", 2), ("c", 0)]));
    assert!(rank_entries(&Vec::new()).is_empty());
}

#[test]
fn rank_entries_keeps_every_entry_of_a_tie() {
    let given = pairs(&[("a", 1), ("b", 3), ("c", 1), ("d", 3), ("e", 1)]);
    let ranked = rank_entries(&given);
    assert_eq!(ranked.iter().map(|p| p.1).collect::<Vec<_>>(), vec![3, 3, 1, 1, 1]);
    let mut names: Vec<String> = ranked.iter().map(|p| p.0.clone()).collect();
    names.sort();
    assert_eq!(names, vec!["a", "b", "c", "d", "e"]);
    let mut top: Vec<&str> = ranked[..2].iter().map(|p| p.0.as_str()).collect();
    top.sort();
    assert_eq!(top, vec!["b", "d"]);
}

#[test]
fn leading_takes_a_prefix() {
    let all = pairs(&[("a", 9), ("b", 5), ("c", 1)]);
    assert_eq!(leading(all.clone(), 2), pairs(&[("a", 9), ("b", 5)]));
    assert_eq!(leading(all.clone(), 3), all);
    assert_eq!(leading(all.clone(), 10), all);
    assert!(leading(all, 0).is_empty());
}

#[test]
fn authors_are_ranked_by_message_count() {
    let mut s = Stats::new("T".to_string());
    for (who, times) in [("A", 2), ("B", 5), ("C", 1), ("D", 3)] {
        for _ in 0..times {
            s.fold(&said(who, "hi"), false);
        }
    }
    let ranked = rank_authors(&s);
    assert_eq!(
        ranked,
        vec![
            ("B".to_string(), 5),
            ("D".to_string(), 3),
            ("A".to_string(), 2),
            ("C".to_string(), 1),
        ]
    );
}

#[test]
fn ranking_lists_every_author_once_even_with_ties() {
    let mut s = Stats::new("T".to_string());
    for who in ["A", "B", "C", "B", "A", "D"] {
        s.fold(&said(who, "hi"), false);
    }
    let ranked = rank_authors(&s);
    assert_eq!(ranked.len(), 4);
    for pair in ranked.windows(2) {
        assert!(pair[0].1 >= pair[1].1);
    }
    let mut names: Vec<&str> = ranked.iter().map(|p| p.0.as_str()).collect();
    names.sort();
    assert_eq!(names, vec!["A", "B", "C", "D"]);
    assert_eq!(ranked.iter().map(|p| p.1).sum::<usize>(), s.total_messages);
}

#[test]
fn ranking_of_fresh_stats_is_empty() {
    assert!(rank_authors(&Stats::new(String::new())).is_empty());
}

#[test]
fn top_words_takes_the_most_frequent() {
    let mut s = Stats::new("T".to_string());
    s.fold(&said("A", "one two two three three three four four four four"), true);
    assert_eq!(
        top_words(&s, 2),
        vec![("four".to_string(), 4), ("three".to_string(), 3)]
    );
    assert_eq!(top_words(&s, 20).len(), 4);
    assert_eq!(top_words(&s, 20)[3], ("one".to_string(), 1));
    assert!(top_words(&s, 0).is_empty());
}

#[test]
fn busiest_hour_is_the_earliest_peak() {
    let mut s = Stats::new("T".to_string());
    assert_eq!(busiest_hour(&s), (0, 0));
    s.hour_hist[7] = 3;
    s.hour_hist[20] = 3;
    s.hour_hist[2] = 1;
    assert_eq!(busiest_hour(&s), (7, 3));
    s.hour_hist[23] = 4;
    assert_eq!(busiest_hour(&s), (23, 4));
}

#[test]
fn busiest_day_never_looks_at_bucket_zero() {
    let mut s = Stats::new("T".to_string());
    assert_eq!(busiest_day(&s), (1, 0));
    s.day_hist[0] = 9;
    assert_eq!(busiest_day(&s), (1, 0));
    s.day_hist[31] = 2;
    s.day_hist[15] = 2;
    assert_eq!(busiest_day(&s), (15, 2));
}

#[test]
fn spam_score_sums_repeats_beyond_the_first() {
    assert_eq!(spam_score(&table(&[])), 0);
    assert_eq!(spam_score(&table(&[("a", 1), ("b", 1)])), 0);
    assert_eq!(spam_score(&table(&[("a", 2)])), 1);
    assert_eq!(spam_score(&table(&[("a", 4), ("b", 1), ("c", 3), ("d", 0)])), 5);
}

#[test]
fn spam_score_is_capped() {
    assert_eq!(spam_score(&table(&[("a", usize::MAX), ("b", usize::MAX)])), usize::MAX);
    assert_eq!(spam_score(&table(&[("a", usize::MAX)])), usize::MAX - 1);
}

#[test]
fn two_identical_texts_score_one() {
    let mut s = Stats::new("T".to_string());
    s.fold(&said("A", "spam spam spam"), true);
    s.fold(&said("A", "spam spam spam"), true);
    assert_eq!(s.spam_map.get("A").and_then(|t| t.get("spam spam spam")).copied(), Some(2));
    assert_eq!(spam_score(s.spam_map.get("A").unwrap()), 1);
    assert_eq!(top_spammers(&s, 10), vec![("A".to_string(), 1)]);
}

#[test]
fn spammers_are_ranked_and_clean_authors_left_out() {
    let mut s = Stats::new("T".to_string());
    for (who, text, times) in [
        ("A", "buy now!!", 2),
        ("B", "hello there", 4),
        ("B", "other text", 2),
        ("C", "only once", 1),
        ("D", "again again", 3),
    ] {
        for _ in 0..times {
            s.fold(&said(who, text), true);
        }
    }
    assert_eq!(
        top_spammers(&s, 10),
        vec![("B".to_string(), 4), ("D".to_string(), 2), ("A".to_string(), 1)]
    );
    assert_eq!(top_spammers(&s, 2), vec![("B".to_string(), 4), ("D".to_string(), 2)]);
    assert!(top_spammers(&s, 0).is_empty());
}

#[test]
fn plain_pass_has_no_spammers() {
    let mut s = Stats::new("T".to_string());
    s.fold(&said("A", "spam spam spam"), false);
    s.fold(&said("A", "spam spam spam"), false);
    assert!(top_spammers(&s, 10).is_empty());
}
