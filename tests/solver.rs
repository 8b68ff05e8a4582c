use wordle_solver::constraints::Constraints;
use wordle_solver::entry::{parse_entry, parse_feedback, parse_word, EntryError};
use wordle_solver::feedback::{
    is_all_green, is_lowercase_word, same_word, simulate_guess, word_contains, Word,
    WordleAnswerColor,
};
use wordle_solver::pool::{contains_word, feedback_distribution, feedback_index, filter_pool};
use wordle_solver::score::{
    all_guess_features, guess_features, letter_frequency, word_likelihood_score, word_prior,
};
use wordle_solver::search::{best_guess, best_guess_index};
use wordle_solver::seen::SeenLetterBitFlags;
use wordle_solver::session::{GuessPlan, Session, SessionState};

use WordleAnswerColor::{Gray, Green, Yellow};

fn w(s: &str) -> Word {
    parse_word(s.as_bytes()).unwrap()
}

fn words(list: &[&str]) -> Vec<Word> {
    list.iter().map(|s| w(s)).collect()
}

#[test]
fn word_classified_against_itself_is_all_green() {
    for s in ["spark", "crane", "sassy", "aaaaa", "blitz"] {
        let fb = simulate_guess(&w(s), &w(s));
        assert_eq!(fb, [Green; 5]);
        assert!(is_all_green(&fb));
    }
}

#[test]
fn crane_against_spark() {
    let fb = simulate_guess(&w("spark"), &w("crane"));
    assert_eq!(fb, [Gray, Yellow, Green, Gray, Gray]);
    assert!(!is_all_green(&fb));
}

#[test]
fn repeated_letters_are_not_consumed() {
    let fb = simulate_guess(&w("mesas"), &w("sassy"));
    assert_eq!(fb, [Yellow, Yellow, Green, Yellow, Gray]);
}

#[test]
fn end_to_end_three_words() {
    let vocab = words(&["spark", "crane", "blitz"]);
    let mut session = Session::new(vocab.clone());
    assert_eq!(session.state(), SessionState::Guessing);
    assert!(matches!(session.plan(), GuessPlan::Opening));
    let answer = w("spark");
    let guess = w("crane");
    let fb = simulate_guess(&answer, &guess);
    assert_eq!(fb, [Gray, Yellow, Green, Gray, Gray]);
    session.record(&guess, &fb);
    assert_eq!(session.pool(), &vec![w("spark")]);
    assert_eq!(session.state(), SessionState::Guessing);
    match session.plan() {
        GuessPlan::Candidate(next) => assert_eq!(next, w("spark")),
        other => panic!("unexpected plan {:?}", other),
    }
    let fb = simulate_guess(&answer, &w("spark"));
    session.record(&w("spark"), &fb);
    assert_eq!(session.state(), SessionState::Won);
    assert_eq!(session.round(), 2);
}

#[test]
fn answer_survives_its_own_feedback() {
    let answers = ["mesas", "spark", "eerie", "blitz", "sassy"];
    let guesses = ["sassy", "crane", "geese", "zzzzz", "mesas"];
    for a in answers {
        let mut c = Constraints::new();
        for g in guesses {
            let fb = simulate_guess(&w(a), &w(g));
            c.update_from_guess(&w(g), &fb);
            assert!(c.matches(&w(a)), "{} filtered out after {}", a, g);
        }
    }
}

#[test]
fn gray_after_yellow_of_same_letter_does_not_exclude() {
    let mut c = Constraints::new();
    c.update_from_guess(&w("abbey"), &[Gray, Yellow, Gray, Gray, Gray]);
    assert!(!c.is_excluded(b'b'));
    assert!(c.is_excluded(b'a'));
    assert!(c.is_excluded(b'e'));
    assert!(c.is_included(b'b'));
    assert!(c.matches(&w("robot")));
    assert!(c.matches(&w("bxxxx")));
    assert!(!c.matches(&w("xbxxx")));
    assert!(!c.matches(&w("droop")));
}

#[test]
fn green_fixes_a_position() {
    let mut c = Constraints::new();
    c.update_from_guess(&w("crane"), &[Gray, Gray, Green, Gray, Gray]);
    assert_eq!(c.known_at(2), Some(b'a'));
    assert_eq!(c.known_at(0), None);
    assert!(c.matches(&w("stall")));
    assert!(!c.matches(&w("stoll")));
}

#[test]
fn pool_never_grows() {
    let vocab = words(&["spark", "crane", "blitz", "stark", "shark", "spare"]);
    let mut c = Constraints::new();
    let mut pool = vocab.clone();
    let answer = w("shark");
    for g in ["crane", "spark", "stark"] {
        let fb = simulate_guess(&answer, &w(g));
        c.update_from_guess(&w(g), &fb);
        let next = filter_pool(&pool, &c);
        assert!(next.len() <= pool.len());
        pool = next;
    }
    assert_eq!(pool, vec![w("shark")]);
}

#[test]
fn single_candidate_fills_one_bucket() {
    let pool = words(&["spark"]);
    let d = feedback_distribution(&w("crane"), &pool);
    assert_eq!(d.len(), 243);
    let code = feedback_index(&simulate_guess(&w("spark"), &w("crane")));
    for (k, &n) in d.iter().enumerate() {
        assert_eq!(n, if k == code { 1 } else { 0 });
    }
}

#[test]
fn distinct_patterns_fill_distinct_buckets() {
    let pool = words(&["spark", "crane", "blitz", "mesas"]);
    let guess = w("crane");
    let d = feedback_distribution(&guess, &pool);
    assert!(d.iter().all(|&n| n <= 1));
    assert_eq!(d.iter().sum::<usize>(), 4);
    for cand in &pool {
        assert_eq!(d[feedback_index(&simulate_guess(cand, &guess))], 1);
    }
}

#[test]
fn shared_pattern_shares_a_bucket() {
    let pool = words(&["shark", "stark", "spark"]);
    let d = feedback_distribution(&w("blitz"), &pool);
    let code = feedback_index(&[Gray; 5]);
    assert_eq!(code, 242);
    assert_eq!(d[code], 2);
    assert_eq!(feedback_index(&[Green; 5]), 0);
}

#[test]
fn singleton_vocabulary_is_the_best_guess() {
    let vocab = words(&["blitz"]);
    assert_eq!(best_guess(&vocab, &vec![0]), w("blitz"));
    assert_eq!(best_guess(&vocab, &vec![u64::MAX]), w("blitz"));
}

#[test]
fn best_guess_takes_first_maximum() {
    assert_eq!(best_guess_index(&vec![3, 7, 1, 7, 2]), 1);
    assert_eq!(best_guess_index(&vec![5]), 0);
    let vocab = words(&["spark", "crane", "blitz"]);
    assert_eq!(best_guess(&vocab, &vec![2, 9, 9]), w("crane"));
}

#[test]
fn all_green_first_round_wins() {
    let mut session = Session::new(words(&["spark", "crane", "blitz"]));
    let (g, fb) = parse_entry(b"salet", b"ggggg", &words(&["salet"])).unwrap();
    session.record(&g, &fb);
    assert_eq!(session.state(), SessionState::Won);
    assert_eq!(session.round(), 1);
}

#[test]
fn six_misses_exhaust_the_session() {
    let list = ["aaaaa", "bbbbb", "ccccc", "ddddd", "eeeee", "fffff", "ggggg", "hhhhh", "iiiii", "jjjjj"];
    let mut session = Session::new(words(&list));
    let answer = w("jjjjj");
    let mut rounds = 0;
    while session.state() == SessionState::Guessing {
        let guess = match session.plan() {
            GuessPlan::Opening | GuessPlan::Search => w(list[rounds]),
            GuessPlan::Candidate(c) => c,
        };
        let fb = simulate_guess(&answer, &guess);
        session.record(&guess, &fb);
        rounds += 1;
        assert!(rounds <= 6);
    }
    assert_eq!(session.state(), SessionState::Exhausted);
    assert_eq!(session.round(), 6);
}

#[test]
fn last_guess_takes_first_candidate() {
    let list = ["aaaaa", "bbbbb", "ccccc", "ddddd", "eeeee", "fffff", "ggggg", "hhhhh", "iiiii", "jjjjj"];
    let mut session = Session::new(words(&list));
    let answer = w("jjjjj");
    for g in ["aaaaa", "bbbbb", "ccccc", "ddddd"] {
        session.record(&w(g), &simulate_guess(&answer, &w(g)));
    }
    assert!(matches!(session.plan(), GuessPlan::Search));
    session.record(&w("eeeee"), &simulate_guess(&answer, &w("eeeee")));
    match session.plan() {
        GuessPlan::Candidate(c) => assert_eq!(c, w("fffff")),
        other => panic!("unexpected plan {:?}", other),
    }
}

#[test]
fn contradictory_feedback_leaves_no_candidates() {
    let mut session = Session::new(words(&["spark", "crane"]));
    session.record(&w("zzzzz"), &[Green; 4].into_iter().chain([Gray]).collect::<Vec<_>>().try_into().unwrap());
    assert_eq!(session.state(), SessionState::NoCandidates);
    assert!(session.pool().is_empty());
}

#[test]
fn sixth_guess_emptying_pool_reports_no_candidates() {
    let list = ["aaaaa", "bbbbb", "ccccc", "ddddd", "eeeee", "fffff"];
    let mut session = Session::new(words(&list));
    for g in ["aaaaa", "bbbbb", "ccccc", "ddddd", "eeeee"] {
        session.record(&w(g), &[Gray; 5]);
    }
    assert_eq!(session.state(), SessionState::Guessing);
    assert_eq!(session.pool(), &vec![w("fffff")]);
    session.record(&w("fffff"), &[Gray; 5]);
    assert_eq!(session.round(), 6);
    assert_eq!(session.state(), SessionState::NoCandidates);
}

#[test]
fn known_position_still_rules_out_tried_letter() {
    let mut c = Constraints::new();
    c.update_from_guess(&w("abbbb"), &[Yellow, Green, Green, Green, Green]);
    c.update_from_guess(&w("abbbb"), &[Green; 5]);
    assert_eq!(c.known_at(0), Some(b'a'));
    assert!(!c.matches(&w("abbbb")));
}

#[test]
fn letter_green_later_in_guess_is_not_excluded() {
    let mut c = Constraints::new();
    c.update_from_guess(&w("abcda"), &[Gray, Gray, Gray, Gray, Green]);
    assert!(!c.is_excluded(b'a'));
    assert!(c.is_excluded(b'b') && c.is_excluded(b'c') && c.is_excluded(b'd'));
    assert_eq!(c.known_at(4), Some(b'a'));
    c.update_from_guess(&w("eerie"), &[Gray, Gray, Gray, Gray, Green]);
    assert!(!c.is_excluded(b'e'));
    assert!(c.is_excluded(b'r') && c.is_excluded(b'i'));
}

#[test]
fn letter_known_from_earlier_round_is_not_excluded() {
    let mut c = Constraints::new();
    c.update_from_guess(&w("crane"), &[Gray, Yellow, Gray, Gray, Gray]);
    c.update_from_guess(&w("rxxxx"), &[Gray, Gray, Gray, Gray, Gray]);
    assert!(!c.is_excluded(b'r'));
    assert!(c.is_excluded(b'x'));
}

#[test]
fn refolding_same_feedback_changes_nothing() {
    let mut c = Constraints::new();
    c.update_from_guess(&w("caaaa"), &[Green, Gray, Gray, Gray, Gray]);
    c.update_from_guess(&w("dcxxx"), &[Green, Gray, Gray, Gray, Gray]);
    assert!(!c.is_excluded(b'c'));
    c.update_from_guess(&w("dcxxx"), &[Green, Gray, Gray, Gray, Gray]);
    assert!(!c.is_excluded(b'c'));
    assert!(c.is_excluded(b'a') && c.is_excluded(b'x'));
    assert_eq!(c.known_at(0), Some(b'd'));
    assert!(c.matches(&w("dyyyy")));
    assert!(c.matches(&w("dcyyy")));
    assert!(!c.matches(&w("dxyyy")));
}

#[test]
fn search_space_follows_mode() {
    let vocab = words(&["spark", "crane", "blitz", "salet"]);
    let mut session = Session::new(words(&["spark", "crane", "blitz"]));
    session.record(&w("salet"), &simulate_guess(&w("spark"), &w("salet")));
    assert_eq!(session.search_space(&vocab, false), &vocab);
    assert_eq!(session.search_space(&vocab, true), session.pool());
}

#[test]
fn entry_errors() {
    let vocab = words(&["salet", "crane"]);
    assert_eq!(parse_entry(b"sale", b"ggyyx", &vocab), Err(EntryError::WrongLength));
    assert_eq!(parse_entry(b"salet", b"ggyyxx", &vocab), Err(EntryError::WrongLength));
    assert_eq!(parse_entry(b"salet", b"ggyyz", &vocab), Err(EntryError::BadResultLetter));
    assert_eq!(parse_entry(b"zzzzz", b"ggyyx", &vocab), Err(EntryError::UnknownWord));
    assert_eq!(
        parse_entry(b"crane", b"gyxgx", &vocab),
        Ok((w("crane"), [Green, Yellow, Gray, Green, Gray]))
    );
    assert_eq!(parse_feedback(b"xxxxx"), Some([Gray; 5]));
    assert_eq!(parse_feedback(b"gyx"), None);
    assert_eq!(parse_word(b"toolong"), None);
}

#[test]
fn seen_letters() {
    let mut seen = SeenLetterBitFlags::new();
    assert!(!seen.get(b'a'));
    seen.set_word(&w("salet"), true);
    assert!(seen.get(b's') && seen.get(b'a') && seen.get(b't'));
    assert!(!seen.get(b'z'));
    assert_eq!(seen.get_word(&w("sassy")), 4);
    assert_eq!(seen.get_word(&w("crony")), 0);
    seen.set(b'a', false);
    assert!(!seen.get(b'a'));
    assert_eq!(seen.get_word(&w("sassy")), 3);
    assert_eq!(SeenLetterBitFlags::flag_of_char(b'a'), 1);
    assert_eq!(SeenLetterBitFlags::flag_of_char(b'z'), 1 << 25);
}

#[test]
fn letter_counts_and_likelihood() {
    let pool = words(&["spark", "stark", "crane"]);
    let counts = letter_frequency(&pool);
    assert_eq!(counts.len(), 5);
    assert_eq!(counts[0][b's' as usize], 2);
    assert_eq!(counts[0][b'c' as usize], 1);
    assert_eq!(counts[2][b'a' as usize], 3);
    assert_eq!(counts[4][b'k' as usize], 2);
    assert_eq!(counts[1][b'z' as usize], 0);
    // s:2 + t:1 + a:3 + r:2 + e:1
    assert_eq!(word_likelihood_score(&w("stare"), &counts), 9);
}

#[test]
fn prior_counts() {
    let mut c = Constraints::new();
    c.update_from_guess(&w("crane"), &[Gray, Yellow, Green, Gray, Gray]);
    let p = word_prior(&w("spark"), &c);
    assert_eq!((p.known_hits, p.included_hits, p.excluded_hits), (1, 1, 0));
    let p = word_prior(&w("cocoa"), &c);
    assert_eq!((p.known_hits, p.included_hits, p.excluded_hits), (0, 0, 2));
}

#[test]
fn features_follow_vocabulary_order() {
    let pool = words(&["spark", "stark", "crane"]);
    let vocab = words(&["crane", "blitz", "spark"]);
    let counts = letter_frequency(&pool);
    let mut seen = SeenLetterBitFlags::new();
    seen.set_word(&w("salet"), true);
    let all = all_guess_features(&vocab, &pool, &counts, &seen);
    assert_eq!(all.len(), 3);
    for (i, g) in vocab.iter().enumerate() {
        let one = guess_features(g, &pool, &counts, &seen);
        assert_eq!(all[i].buckets, one.buckets);
        assert_eq!(all[i].in_pool, one.in_pool);
        assert_eq!(all[i].likelihood, one.likelihood);
        assert_eq!(all[i].seen_letters, one.seen_letters);
    }
    assert!(all[0].in_pool && !all[1].in_pool && all[2].in_pool);
    assert_eq!(all[1].buckets[242], 2);
    assert_eq!(all[2].seen_letters, 2);
}

#[test]
fn word_helpers() {
    assert!(word_contains(&w("spark"), b'k'));
    assert!(!word_contains(&w("spark"), b'z'));
    assert!(same_word(&w("spark"), &w("spark")));
    assert!(!same_word(&w("spark"), &w("stark")));
    assert!(is_lowercase_word(&w("spark")));
    assert!(!is_lowercase_word(&w("SPARK")));
    assert!(contains_word(&words(&["spark", "crane"]), &w("crane")));
    assert!(!contains_word(&words(&["spark", "crane"]), &w("blitz")));
}
