use firefly_types::{BadgeProgress, BoardScores, Encode, FriendScore, Stats};
use installer::stats::{max_date, update_stats, BadgeData, BoardData, StatsData};

fn template() -> StatsData {
    StatsData {
        minutes: [0; 4],
        longest_play: [0; 4],
        launches: [0; 4],
        installed_on: (0, 0, 0),
        updated_on: (0, 0, 0),
        launched_on: (0, 0, 0),
        xp: 0,
        badges: vec![
            BadgeData { new: false, done: 0, goal: 10 },
            BadgeData { new: false, done: 0, goal: 5 },
            BadgeData { new: false, done: 0, goal: 7 },
        ],
        scores: vec![
            BoardData { me: [0; 8], friends: [(0, 0); 8] },
            BoardData { me: [0; 8], friends: [(0, 0); 8] },
        ],
    }
}

fn old_stats(xp: u16) -> Stats {
    Stats {
        minutes: [11, 12, 13, 14],
        longest_play: [21, 22, 23, 24],
        launches: [31, 32, 33, 34],
        installed_on: (2024, 1, 1),
        updated_on: (2024, 3, 1),
        launched_on: (2024, 6, 1),
        xp,
        badges: vec![
            BadgeProgress { new: true, done: 20, goal: 15 },
            BadgeProgress { new: false, done: 3, goal: 4 },
        ]
        .into_boxed_slice(),
        scores: vec![BoardScores {
            me: Box::new([9, 8, 7, 6, 5, 4, 3, 2]),
            friends: Box::new([FriendScore { index: 2, score: 40 }; 8]),
        }]
        .into_boxed_slice(),
    }
}

#[test]
fn max_date_picks_the_later_date() {
    assert_eq!(max_date((2024, 5, 17), (2024, 5, 18)), (2024, 5, 18));
    assert_eq!(max_date((2025, 1, 1), (2024, 12, 31)), (2025, 1, 1));
    assert_eq!(max_date((2024, 2, 1), (2024, 1, 31)), (2024, 2, 1));
    assert_eq!(max_date((2024, 2, 1), (2024, 2, 1)), (2024, 2, 1));
}

#[test]
fn missing_stats_file_is_an_error() {
    let r = update_stats(&template(), None, (2024, 5, 17));
    assert_eq!(r.err(), Some("failed to read app stats"));
}

#[test]
fn garbage_stats_file_is_an_error() {
    let r = update_stats(&template(), Some(vec![0xff, 0xff, 0xff]), (2024, 5, 17));
    assert_eq!(r.err(), Some("failed to parse app stats"));
    let r = update_stats(&template(), Some(vec![]), (2024, 5, 17));
    assert_eq!(r.err(), Some("failed to parse app stats"));
}

#[test]
fn old_stats_are_carried_over() {
    let raw = old_stats(32).encode_vec().unwrap();
    let s = match update_stats(&template(), Some(raw), (2024, 5, 17)) {
        Ok(s) => s,
        Err(e) => panic!("{e}"),
    };
    assert_eq!(s.minutes, [11, 12, 13, 14]);
    assert_eq!(s.longest_play, [21, 22, 23, 24]);
    assert_eq!(s.launches, [31, 32, 33, 34]);
    assert_eq!(s.installed_on, (2024, 1, 1));
    assert_eq!(s.launched_on, (2024, 6, 1));
    // The latest of today and the recorded dates.
    assert_eq!(s.updated_on, (2024, 6, 1));
    assert_eq!(s.xp, 32);

    // One badge per template badge, with the template's goal and the old
    // progress capped at the goal.
    let badges: Vec<(bool, u16, u16)> = s.badges.iter().map(|b| (b.new, b.done, b.goal)).collect();
    assert_eq!(badges, vec![(true, 10, 10), (false, 3, 5), (false, 0, 7)]);

    // One board per template board; missing ones are empty.
    assert_eq!(s.scores.len(), 2);
    assert_eq!(s.scores[0].me, [9, 8, 7, 6, 5, 4, 3, 2]);
    assert_eq!(s.scores[0].friends, [(2, 40); 8]);
    assert_eq!(s.scores[1].me, [0; 8]);
    assert_eq!(s.scores[1].friends, [(0, 0); 8]);
}

#[test]
fn xp_is_capped() {
    let raw = old_stats(1500).encode_vec().unwrap();
    let s = update_stats(&template(), Some(raw), (2024, 5, 17)).ok().unwrap();
    assert_eq!(s.xp, 1000);
    let raw = old_stats(1000).encode_vec().unwrap();
    let s = update_stats(&template(), Some(raw), (2024, 5, 17)).ok().unwrap();
    assert_eq!(s.xp, 1000);
}

#[test]
fn today_wins_when_it_is_later() {
    let raw = old_stats(0).encode_vec().unwrap();
    let s = update_stats(&template(), Some(raw), (2025, 1, 2)).ok().unwrap();
    assert_eq!(s.updated_on, (2025, 1, 2));
    assert_eq!(s.installed_on, (2024, 1, 1));
}

#[test]
fn extra_old_badges_and_boards_are_dropped() {
    let mut small = template();
    small.badges.truncate(1);
    small.scores.clear();
    let raw = old_stats(0).encode_vec().unwrap();
    let s = update_stats(&small, Some(raw), (2024, 5, 17)).ok().unwrap();
    assert_eq!(s.badges.len(), 1);
    assert_eq!((s.badges[0].new, s.badges[0].done, s.badges[0].goal), (true, 10, 10));
    assert!(s.scores.is_empty());
}
