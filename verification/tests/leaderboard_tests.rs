use tetrust::leaderboard::{parse_leaderboard, Leaderboard, LeaderboardEntry};

struct TestData {
    score: usize,
    expected_pos: usize,
}

fn name_from_index(i: usize) -> String {
    format!("n{:02}", i)
}

#[test]
fn test_leaderboard() {
    let mut leaderboard = Leaderboard::new();

    let test_values = [
        TestData {
            score: 700,
            expected_pos: 0,
        },
        TestData {
            score: 800,
            expected_pos: 0,
        },
        TestData {
            score: 750,
            expected_pos: 1,
        },
        TestData {
            score: 500,
            expected_pos: 3,
        },
        TestData {
            score: 200,
            expected_pos: 4,
        },
        TestData {
            score: 250,
            expected_pos: 4,
        },
        TestData {
            score: 300,
            expected_pos: 4,
        },
        TestData {
            score: 775,
            expected_pos: 1,
        },
        TestData {
            score: 100,
            expected_pos: 8,
        },
        TestData {
            score: 50,
            expected_pos: 9,
        },
        TestData {
            score: 200,
            expected_pos: 8,
        },
    ];

    let final_score_indices: [usize; 10] = [1, 7, 2, 0, 3, 6, 5, 4, 10, 8];
    let expected_entries: Vec<LeaderboardEntry> = final_score_indices
        .iter()
        .map(|final_score_index| LeaderboardEntry {
            name: name_from_index(*final_score_index),
            score: test_values[*final_score_index].score,
        })
        .collect();
    let expected_final_leaderboard = Leaderboard::from_raw(expected_entries);

    for (i, test) in test_values.iter().enumerate() {
        let place = leaderboard.get_place_on_leaderboard(test.score);
        assert_eq!(place, Some(test.expected_pos));

        let name = name_from_index(i);
        leaderboard.add_score(&name, test.score);
    }

    // Verify that there are 10 entries on the leaderboard
    assert!(leaderboard.entry(final_score_indices.len() - 1).is_some());

    // Check each entry on the leaderboard
    assert_eq!(leaderboard, expected_final_leaderboard);
}

#[test]
fn test_leaderboard_full_rejects_low_score() {
    const TEST_SCORE: usize = 100;

    let mut leaderboard = Leaderboard::new();

    for _ in 0..Leaderboard::max_entries() {
        assert!(leaderboard.get_place_on_leaderboard(TEST_SCORE).is_some());
        leaderboard.add_score("tst", TEST_SCORE);
    }

    // The board is full of equal scores: a lower score no longer qualifies,
    // while a higher one takes the first place.
    assert!(leaderboard
        .get_place_on_leaderboard(TEST_SCORE - 1)
        .is_none());
    assert_eq!(
        leaderboard.get_place_on_leaderboard(TEST_SCORE + 1),
        Some(0)
    );
    assert_eq!(leaderboard.get_place_on_leaderboard(TEST_SCORE), None);
}

#[test]
fn test_leaderboard_constants() {
    assert_eq!(Leaderboard::entry_name_len(), 3);
    assert_eq!(Leaderboard::max_entries(), 10);
}

#[test]
fn test_leaderboard_truncates_to_capacity() {
    let mut leaderboard = Leaderboard::new();
    for i in 0..Leaderboard::max_entries() {
        leaderboard.add_score(&name_from_index(i), 100 * (i + 1));
    }
    // A new qualifying score pushes the lowest entry off the board.
    leaderboard.add_score("win", 5000);
    assert_eq!(leaderboard.entry(0).unwrap().score, 5000);
    assert_eq!(leaderboard.entry(0).unwrap().name, "win");
    assert_eq!(leaderboard.entry(9).unwrap().score, 200);
    assert!(leaderboard.entry(10).is_none());
}

#[test]
fn test_serialize_lines() {
    let mut leaderboard = Leaderboard::new();
    leaderboard.add_score("abc", 700);
    leaderboard.add_score("xyz", 40);
    leaderboard.add_score("zed", 0);
    assert_eq!(leaderboard.serialize(), "abc 700\nxyz 40\nzed 0\n");
}

#[test]
fn test_serialize_empty() {
    let leaderboard = Leaderboard::new();
    assert_eq!(leaderboard.serialize(), "");
}

#[test]
fn test_parse_round_trip() {
    let mut leaderboard = Leaderboard::new();
    leaderboard.add_score("ld5", 700);
    leaderboard.add_score("ld3", 900);
    leaderboard.add_score("ld4", 800);
    leaderboard.add_score("ld1", 1000);
    leaderboard.add_score("ld2", 1000);

    let lines: Vec<String> = leaderboard
        .serialize()
        .lines()
        .map(|l| l.to_string())
        .collect();
    let reloaded = parse_leaderboard(&lines).unwrap();
    assert_eq!(reloaded, leaderboard);
}

#[test]
fn test_parse_valid_lines() {
    let lines = vec!["abc 700".to_string(), "x z 40".to_string(), "zzz 0".to_string()];
    let parsed = parse_leaderboard(&lines).unwrap();
    assert_eq!(parsed.entry(0).unwrap().name, "abc");
    assert_eq!(parsed.entry(0).unwrap().score, 700);
    assert_eq!(parsed.entry(1).unwrap().name, "x z");
    assert_eq!(parsed.entry(1).unwrap().score, 40);
    assert_eq!(parsed.entry(2).unwrap().score, 0);
    assert!(parsed.entry(3).is_none());
}

#[test]
fn test_parse_rejects_bad_lines() {
    // wrong name width
    assert!(parse_leaderboard(&vec!["abcd 12".to_string()]).is_err());
    // missing separator
    assert!(parse_leaderboard(&vec!["abc12".to_string()]).is_err());
    // missing score
    assert!(parse_leaderboard(&vec!["abc ".to_string()]).is_err());
    // stray character in the score
    assert!(parse_leaderboard(&vec!["abc 1x2".to_string()]).is_err());
    // superfluous leading zero
    assert!(parse_leaderboard(&vec!["abc 007".to_string()]).is_err());
    // scores out of order
    assert!(parse_leaderboard(&vec!["abc 10".to_string(), "def 20".to_string()]).is_err());
    // too many lines
    let many: Vec<String> = (0..11).map(|i| format!("n{:02} 5", i)).collect();
    assert!(parse_leaderboard(&many).is_err());
    // a score beyond the score type
    assert!(parse_leaderboard(&vec!["abc 99999999999999999999999999".to_string()]).is_err());
}

#[test]
fn test_parse_empty_file() {
    let parsed = parse_leaderboard(&Vec::new()).unwrap();
    assert_eq!(parsed, Leaderboard::new());
}

#[test]
fn test_entry_accessor() {
    let mut leaderboard = Leaderboard::new();
    assert!(leaderboard.entry(0).is_none());
    leaderboard.add_score("one", 10);
    let entry = leaderboard.entry(0).unwrap();
    assert_eq!(entry.name, "one");
    assert_eq!(entry.score, 10);
    assert!(leaderboard.entry(1).is_none());
}
