//! The per-app statistics file: its default template comes with the ROM,
//! and an existing file is carried over into the new install.
//!
//! Encoding and decoding are done by `firefly-types`.

use firefly_types::{BadgeProgress, BoardScores, Encode, FriendScore, Stats};
use vstd::prelude::*;

verus! {

/// A date as year, month and day of month.
pub type Date = (u16, u8, u8);

/// The progress of earning one badge.
#[derive(Clone, Copy)]
pub struct BadgeData {
    /// If true, the earning of the badge hasn't been shown to the player yet.
    pub new: bool,
    /// How many points are already earned for the badge.
    pub done: u16,
    /// How many points needed to earn the badge.
    pub goal: u16,
}

/// The high scores on one board.
#[derive(Clone, Copy)]
pub struct BoardData {
    /// Top scores of the local player.
    pub me: [i16; 8],
    /// Top scores of friends, as friend index and score.
    pub friends: [(u16, i16); 8],
}

/// Player-specific app stats, like playtime.
pub struct StatsData {
    pub minutes: [u32; 4],
    pub longest_play: [u32; 4],
    pub launches: [u32; 4],
    pub installed_on: Date,
    pub updated_on: Date,
    pub launched_on: Date,
    pub xp: u16,
    pub badges: Vec<BadgeData>,
    pub scores: Vec<BoardData>,
}

/// [`StatsData`] as plain values.
#[verifier::ext_equal]
pub struct StatsModel {
    pub minutes: [u32; 4],
    pub longest_play: [u32; 4],
    pub launches: [u32; 4],
    pub installed_on: Date,
    pub updated_on: Date,
    pub launched_on: Date,
    pub xp: u16,
    pub badges: Seq<BadgeData>,
    pub scores: Seq<BoardData>,
}

impl View for StatsData {
    type V = StatsModel;

    open spec fn view(&self) -> StatsModel {
        StatsModel {
            minutes: self.minutes,
            longest_play: self.longest_play,
            launches: self.launches,
            installed_on: self.installed_on,
            updated_on: self.updated_on,
            launched_on: self.launched_on,
            xp: self.xp,
            badges: self.badges@,
            scores: self.scores@,
        }
    }
}

/// The stats that `postcard` decodes from `raw` as `firefly_types::Stats`.
pub uninterp spec fn stats_decoded(raw: Seq<u8>) -> Option<StatsModel>;

/// The bytes that `postcard` encodes `firefly_types::Stats` with these values into.
pub uninterp spec fn stats_encoded(s: StatsModel) -> Option<Seq<u8>>;

/// `<Stats as Encode>::decode`, with the result converted field by field.
/// Fails exactly when the decoder does; what it decodes is a function of the bytes.
#[verifier::external_body]
pub(crate) fn decode_stats(raw: &[u8]) -> (r: Option<StatsData>)
    ensures
        r is None <==> stats_decoded(raw@) is None,
        r matches Some(s) ==> stats_decoded(raw@) == Some(s@),
{
    let s = Stats::decode(raw).ok()?;
    Some(StatsData {
        minutes: s.minutes, longest_play: s.longest_play, launches: s.launches,
        installed_on: s.installed_on, updated_on: s.updated_on, launched_on: s.launched_on,
        xp: s.xp,
        badges: s.badges.iter().map(|b| BadgeData { new: b.new, done: b.done, goal: b.goal }).collect(),
        scores: s.scores.iter().map(|b| BoardData { me: *b.me, friends: b.friends.map(|f| (f.index, f.score)) }).collect(),
    })
}

/// `<Stats as Encode>::encode_vec` on the stats converted field by field.
/// What it encodes is a function of the values, and, as the encoding is the
/// one that `decode` reads, decoding the bytes gives the values back.
#[verifier::external_body]
pub(crate) fn encode_stats(s: &StatsData) -> (r: Option<Vec<u8>>)
    ensures
        r is None <==> stats_encoded(s@) is None,
        r matches Some(b) ==> stats_encoded(s@) == Some(b@) && stats_decoded(b@) == Some(s@),
{
    let out = Stats {
        minutes: s.minutes, longest_play: s.longest_play, launches: s.launches,
        installed_on: s.installed_on, updated_on: s.updated_on, launched_on: s.launched_on,
        xp: s.xp,
        badges: s.badges.iter().map(|b| BadgeProgress { new: b.new, done: b.done, goal: b.goal }).collect(),
        scores: s.scores.iter().map(|b| BoardScores { me: Box::new(b.me), friends: Box::new(b.friends.map(|(index, score)| FriendScore { index, score })) }).collect(),
    };
    out.encode_vec().ok()
}

/// `a < b` in the order of `Ord` for tuples: by year, then month, then day.
pub open spec fn date_lt(a: Date, b: Date) -> bool {
    a.0 < b.0 || (a.0 == b.0 && (a.1 < b.1 || (a.1 == b.1 && a.2 < b.2)))
}

/// `Ord::max` of two dates.
pub open spec fn date_max(a: Date, b: Date) -> Date {
    if date_lt(b, a) {
        a
    } else {
        b
    }
}

/// The later of two dates.
pub fn max_date(a: Date, b: Date) -> (r: Date)
    ensures
        r == date_max(a, b),
{
    if b.0 < a.0 || (b.0 == a.0 && (b.1 < a.1 || (b.1 == a.1 && b.2 < a.2))) {
        a
    } else {
        b
    }
}

/// A board with no scores.
pub open spec fn empty_board() -> BoardData {
    BoardData {
        me: [0i16, 0, 0, 0, 0, 0, 0, 0],
        friends: [(0u16, 0i16), (0, 0), (0, 0), (0, 0), (0, 0), (0, 0), (0, 0), (0, 0)],
    }
}

/// The progress on badge `i` of the template, carried over from the old stats.
pub open spec fn carried_badge(default: StatsModel, old: StatsModel, i: int) -> BadgeData {
    let goal = default.badges[i].goal;
    if i < old.badges.len() {
        let o = old.badges[i];
        BadgeData { new: o.new, done: if o.done < goal { o.done } else { goal }, goal }
    } else {
        BadgeData { new: false, done: 0, goal }
    }
}

/// The stats after an update of the app: the old stats with the badges and
/// boards of the new template, the XP capped at 1000, and the update date set
/// to the latest of today and the dates already recorded.
pub open spec fn merged_stats(default: StatsModel, old: StatsModel, today: Date) -> StatsModel {
    StatsModel {
        minutes: old.minutes,
        longest_play: old.longest_play,
        launches: old.launches,
        installed_on: old.installed_on,
        updated_on: date_max(
            date_max(date_max(today, old.installed_on), old.launched_on),
            old.updated_on,
        ),
        launched_on: old.launched_on,
        xp: if old.xp < 1000 {
            old.xp
        } else {
            1000
        },
        badges: Seq::new(default.badges.len(), |i: int| carried_badge(default, old, i)),
        scores: Seq::new(
            default.scores.len(),
            |i: int|
                if i < old.scores.len() {
                    old.scores[i]
                } else {
                    empty_board()
                },
        ),
    }
}

/// The stats of a fresh install: nothing played yet, installed and updated
/// today, with the badges and boards of the template.
pub open spec fn fresh_stats(default: StatsModel, today: Date) -> StatsModel {
    StatsModel {
        minutes: [0u32, 0, 0, 0],
        longest_play: [0u32, 0, 0, 0],
        launches: [0u32, 0, 0, 0],
        installed_on: today,
        updated_on: today,
        launched_on: (0, 0, 0),
        xp: 0,
        badges: default.badges,
        scores: default.scores,
    }
}

/// Generate stats from the default template provided by the ROM, for an app
/// that was installed before and whose stats file held `raw`.
pub fn update_stats(default: &StatsData, raw: Option<Vec<u8>>, today: Date) -> (r: Result<
    StatsData,
    &'static str,
>)
    ensures
        raw is None ==> r == Err::<StatsData, &'static str>("failed to read app stats"),
        raw matches Some(b) ==> match stats_decoded(b@) {
            None => r == Err::<StatsData, &'static str>("failed to parse app stats"),
            Some(old) => r matches Ok(s) && s@ == merged_stats(default@, old, today),
        },
{
    let raw = match raw {
        Some(raw) => raw,
        None => return Err("failed to read app stats"),
    };
    let old_stats = match decode_stats(&raw) {
        Some(s) => s,
        None => return Err("failed to parse app stats"),
    };

    // The current date might be behind the current date on the device,
    // and it might be reflected in the dates recorded in the stats.
    // If that happens, try to stay closer to the device time.
    let today = max_date(
        max_date(max_date(today, old_stats.installed_on), old_stats.launched_on),
        old_stats.updated_on,
    );

    let mut badges: Vec<BadgeData> = Vec::new();
    let mut i: usize = 0;
    while i < default.badges.len()
        invariant
            0 <= i <= default.badges@.len(),
            badges@.len() == i,
            forall|k: int| 0 <= k < i ==> badges@[k] == carried_badge(default@, old_stats@, k),
        decreases default.badges@.len() - i,
    {
        let default_badge = default.badges[i];
        let new_badge = if i < old_stats.badges.len() {
            let old_badge = old_stats.badges[i];
            BadgeData {
                new: old_badge.new,
                done: if old_badge.done < default_badge.goal {
                    old_badge.done
                } else {
                    default_badge.goal
                },
                goal: default_badge.goal,
            }
        } else {
            BadgeData { new: false, done: 0, goal: default_badge.goal }
        };
        badges.push(new_badge);
        i = i + 1;
    }

    let mut scores: Vec<BoardData> = Vec::new();
    let mut i: usize = 0;
    while i < old_stats.scores.len() && i < default.scores.len()
        invariant
            0 <= i <= old_stats.scores@.len(),
            i <= default.scores@.len(),
            scores@ == old_stats.scores@.take(i as int),
        decreases default.scores@.len() - i,
    {
        scores.push(old_stats.scores[i]);
        assert(scores@ =~= old_stats.scores@.take(i + 1));
        i = i + 1;
    }
    while scores.len() < default.scores.len()
        invariant
            scores@.len() <= default.scores@.len(),
            scores@.len() < default.scores@.len() ==> scores@.len() >= old_stats.scores@.len(),
            forall|k: int|
                0 <= k < scores@.len() ==> scores@[k] == if k < old_stats.scores@.len() {
                    old_stats.scores@[k]
                } else {
                    empty_board()
                },
        decreases default.scores@.len() - scores@.len(),
    {
        let fs: (u16, i16) = (0, 0);
        let new_score = BoardData { me: [0i16; 8], friends: [fs; 8] };
        assert(new_score.me =~= [0i16, 0, 0, 0, 0, 0, 0, 0]);
        assert(new_score.friends =~= [(0u16, 0i16), (0, 0), (0, 0), (0, 0), (0, 0), (0, 0), (0, 0), (0, 0)]);
        assert(new_score == empty_board());
        scores.push(new_score);
    }

    let new_stats = StatsData {
        minutes: old_stats.minutes,
        longest_play: old_stats.longest_play,
        launches: old_stats.launches,
        installed_on: old_stats.installed_on,
        updated_on: today,
        launched_on: old_stats.launched_on,
        xp: if old_stats.xp < 1000 {
            old_stats.xp
        } else {
            1000
        },
        badges,
        scores,
    };
    assert(new_stats@.badges =~= merged_stats(default@, old_stats@, today).badges);
    assert(new_stats@.scores =~= merged_stats(default@, old_stats@, today).scores);
    Ok(new_stats)
}

/// Carrying stats over to a new template keeps one badge and one board per
/// template entry, each badge's goal that of the template and its progress
/// within the goal, the XP at most 1000, the play counters and the install
/// and launch dates as they were, and an update date no earlier than today
/// or any date already recorded.
pub proof fn lemma_merged_stats(default: StatsModel, old: StatsModel, today: Date)
    ensures
        ({
            let m = merged_stats(default, old, today);
            &&& m.badges.len() == default.badges.len()
            &&& forall|i: int|
                0 <= i < m.badges.len() ==> #[trigger] m.badges[i].goal == default.badges[i].goal
                    && m.badges[i].done <= m.badges[i].goal
            &&& m.scores.len() == default.scores.len()
            &&& m.xp <= 1000
            &&& m.minutes == old.minutes && m.longest_play == old.longest_play && m.launches
                == old.launches
            &&& m.installed_on == old.installed_on && m.launched_on == old.launched_on
            &&& !date_lt(m.updated_on, today)
            &&& !date_lt(m.updated_on, old.installed_on)
            &&& !date_lt(m.updated_on, old.launched_on)
            &&& !date_lt(m.updated_on, old.updated_on)
        }),
{
}


/// Carrying stats over keeps each badge's progress and each board's scores
/// where they were: badge `i` keeps its "new" flag and its points, capped at
/// the template's goal; board `i` keeps its scores; badges and boards that
/// the old stats did not have start from nothing; the XP is the old XP capped
/// at 1000; and the update date is one of today and the dates recorded.
pub proof fn lemma_stats_carried_over(default: StatsModel, old: StatsModel, today: Date)
    ensures
        ({
            let m = merged_stats(default, old, today);
            &&& forall|i: int|
                0 <= i < default.badges.len() && i < old.badges.len() ==> {
                    &&& (#[trigger] m.badges[i]).new == old.badges[i].new
                    &&& m.badges[i].done == if old.badges[i].done <= default.badges[i].goal {
                        old.badges[i].done
                    } else {
                        default.badges[i].goal
                    }
                }
            &&& forall|i: int|
                old.badges.len() <= i < default.badges.len() ==> !(#[trigger] m.badges[i]).new
                    && m.badges[i].done == 0
            &&& forall|i: int|
                0 <= i < default.scores.len() && i < old.scores.len() ==> #[trigger] m.scores[i]
                    == old.scores[i]
            &&& forall|i: int|
                old.scores.len() <= i < default.scores.len() ==> (#[trigger] m.scores[i]).me
                    == [0i16, 0, 0, 0, 0, 0, 0, 0] && m.scores[i].friends == [
                    (0u16, 0i16),
                    (0, 0),
                    (0, 0),
                    (0, 0),
                    (0, 0),
                    (0, 0),
                    (0, 0),
                    (0, 0),
                ]
            &&& m.xp == if old.xp <= 1000 {
                old.xp
            } else {
                1000
            }
            &&& m.updated_on == today || m.updated_on == old.installed_on || m.updated_on
                == old.launched_on || m.updated_on == old.updated_on
        }),
{
}

/// A fresh install gets the template's badges and boards as they are,
/// nothing played or launched yet, no XP, and today as both its install and
/// its update date.
pub proof fn lemma_fresh_stats(default: StatsModel, today: Date)
    ensures
        ({
            let f = fresh_stats(default, today);
            &&& f.badges == default.badges
            &&& f.scores == default.scores
            &&& f.minutes == [0u32, 0, 0, 0] && f.longest_play == [0u32, 0, 0, 0] && f.launches
                == [0u32, 0, 0, 0]
            &&& f.installed_on == today && f.updated_on == today
            &&& f.launched_on == (0u16, 0u8, 0u8)
            &&& f.xp == 0
        }),
{
}

} // verus!
