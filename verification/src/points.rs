//! The screen that lists the Wi-Fi access points to pick from.

use vstd::prelude::*;

use crate::connection::Input;
use crate::state::{Scene, State};
use crate::wifi::names_view;

verus! {

/// `old` with every name of `new` that it does not hold yet appended, in the
/// order of `new`.
pub open spec fn merged(old: Seq<Seq<char>>, new: Seq<Seq<char>>) -> Seq<Seq<char>>
    decreases new.len(),
{
    if new.len() == 0 {
        old
    } else {
        let next = if old.contains(new[0]) {
            old
        } else {
            old.push(new[0])
        };
        merged(next, new.drop_first())
    }
}

/// `v` holds the name `x`.
fn holds(v: &Vec<String>, x: &String) -> (r: bool)
    ensures
        r == names_view(v@).contains(x@),
{
    let mut i: usize = 0;
    while i < v.len()
        invariant
            0 <= i <= v@.len(),
            forall|k: int| 0 <= k < i ==> v@[k]@ != x@,
        decreases v@.len() - i,
    {
        if v[i] == *x {
            assert(names_view(v@)[i as int] == x@);
            return true;
        }
        i = i + 1;
    }
    assert forall|k: int| 0 <= k < names_view(v@).len() implies names_view(v@)[k] != x@ by {}
    false
}

/// Adds the newly scanned access points that are not listed yet.
pub fn merge_points(old_points: &mut Vec<String>, new_points: Vec<String>)
    ensures
        names_view(final(old_points)@) == merged(names_view(old(old_points)@), names_view(new_points@)),
{
    let ghost target = merged(names_view(old_points@), names_view(new_points@));
    let mut i: usize = 0;
    assert(names_view(new_points@).skip(0) =~= names_view(new_points@));
    while i < new_points.len()
        invariant
            0 <= i <= new_points@.len(),
            merged(names_view(old_points@), names_view(new_points@).skip(i as int)) == target,
        decreases new_points@.len() - i,
    {
        let point = &new_points[i];
        let ghost before = names_view(old_points@);
        let ghost rest = names_view(new_points@).skip(i as int);
        assert(rest[0] == point@);
        assert(rest.drop_first() =~= names_view(new_points@).skip(i + 1));
        if !holds(old_points, point) {
            old_points.push(point.clone());
            assert(names_view(old_points@) =~= before.push(point@));
        }
        i = i + 1;
    }
    assert(names_view(new_points@).skip(i as int) =~= Seq::<Seq<char>>::empty());
}

/// Merging keeps every listed access point where it was, lists every
/// scanned one, lists nothing else, and lists no access point twice that was
/// not listed twice already.
pub proof fn lemma_merged(old: Seq<Seq<char>>, new: Seq<Seq<char>>)
    ensures
        merged(old, new).len() >= old.len(),
        merged(old, new).take(old.len() as int) == old,
        forall|x: Seq<char>| #[trigger] new.contains(x) ==> merged(old, new).contains(x),
        forall|x: Seq<char>| #[trigger] merged(old, new).contains(x) ==> old.contains(x)
            || new.contains(x),
        old.no_duplicates() ==> merged(old, new).no_duplicates(),
    decreases new.len(),
{
    if new.len() > 0 {
        let next = if old.contains(new[0]) {
            old
        } else {
            old.push(new[0])
        };
        lemma_merged(next, new.drop_first());
        let m = merged(old, new);
        assert(m.take(next.len() as int) == next);
        assert(m.take(old.len() as int) =~= next.take(old.len() as int));
        assert(next.take(old.len() as int) =~= old);
        assert forall|x: Seq<char>| #[trigger] new.contains(x) implies m.contains(x) by {
            if x == new[0] {
                let k = if old.contains(x) {
                    choose|k: int| 0 <= k < old.len() && old[k] == x
                } else {
                    old.len() as int
                };
                assert(next[k] == x);
                assert(m.take(next.len() as int)[k] == m[k]);
                assert(0 <= k < m.len() && m[k] == x);
            } else {
                let k = choose|k: int| 0 <= k < new.len() && new[k] == x;
                assert(new.drop_first()[k - 1] == x);
                assert(new.drop_first().contains(x));
            }
        }
        assert forall|x: Seq<char>| #[trigger] m.contains(x) implies old.contains(x)
            || new.contains(x) by {
            if next.contains(x) {
                if !old.contains(x) {
                    assert(x == new[0]);
                }
            } else {
                let k = choose|k: int| 0 <= k < new.drop_first().len() && new.drop_first()[k] == x;
                assert(new[k + 1] == x);
            }
        }
        if old.no_duplicates() {
            if !old.contains(new[0]) {
                assert forall|i: int, j: int|
                    0 <= i < next.len() && 0 <= j < next.len() && i != j implies next[i]
                    != next[j] by {
                    if i == old.len() as int {
                        assert(old[j] == next[j]);
                    }
                    if j == old.len() as int {
                        assert(old[i] == next[i]);
                    }
                }
            }
        }
    } else {
        assert(old.take(old.len() as int) =~= old);
    }
}

/// Outside work that the access point screen asks for.
pub enum PointsAction {
    Nothing,
    /// Exit the app.
    Quit,
}

/// The screen asks for a scan of the access points in this frame.
pub open spec fn scan_wanted(s: State) -> bool {
    s.rendered_message && s.wifi_wait + 1 <= 5
}

/// Whether a scan of the access points is to be handed to [`update_points`]
/// in this frame.
pub fn wants_scan(state: &State) -> (r: bool)
    ensures
        r == scan_wanted(*state),
{
    state.rendered_message && state.wifi_wait < 5
}

/// The cursor points at a listed access point, or at the top while the list
/// is empty or not there yet.
pub open spec fn cursor_fits(s: State) -> bool {
    match s.points {
        None => s.cursor == 0,
        Some(p) => p@.len() == 0 && s.cursor == 0 || s.cursor < p@.len(),
    }
}

/// The access points listed after this frame's scan.
pub open spec fn listed_after(s: State, scan: Option<Vec<String>>) -> Seq<Seq<char>> {
    match scan {
        None => names_view(s.points->0@),
        Some(new) => match s.points {
            Some(old) => merged(names_view(old@), names_view(new@)),
            None => names_view(new@),
        },
    }
}

/// A copy of the names.
fn copy_names(v: &Vec<String>) -> (r: Vec<String>)
    ensures
        names_view(r@) == names_view(v@),
{
    let mut r: Vec<String> = Vec::new();
    let mut i: usize = 0;
    while i < v.len()
        invariant
            0 <= i <= v@.len(),
            names_view(r@) == names_view(v@).take(i as int),
        decreases v@.len() - i,
    {
        let ghost before = r@;
        let name = v[i].clone();
        assert(name@ == v@[i as int]@);
        r.push(name);
        assert(names_view(r@) =~= names_view(before).push(name@));
        assert(names_view(r@) =~= names_view(v@).take(i + 1));
        i = i + 1;
    }
    assert(names_view(v@).take(v@.len() as int) =~= names_view(v@));
    r
}

/// How many access points are listed after this frame's scan; a pick with
/// the cursor at or past that count cannot be made.
pub fn listed_count(state: &State, scan: &Option<Vec<String>>) -> (r: usize)
    requires
        state.points is Some || scan is Some,
    ensures
        r == listed_after(*state, *scan).len(),
{
    match scan {
        None => state.points.as_ref().unwrap().len(),
        Some(new) => match &state.points {
            Some(old) => {
                let mut m = copy_names(old);
                merge_points(&mut m, copy_names(new));
                m.len()
            },
            None => new.len(),
        },
    }
}

/// Advances the access point screen by one frame: the first frames after it
/// is shown scan for access points, then the buttons move the cursor and
/// pick one.
pub fn update_points(state: &mut State, scan: Option<Vec<String>>, input: Input) -> (r: PointsAction)
    requires
        old(state).wifi_wait < usize::MAX,
        scan is Some <==> scan_wanted(*old(state)),
        old(state).points is None && old(state).rendered_message ==> scan is Some,
        old(state).rendered_message && input == Input::Select && listed_after(*old(state), scan).len()
            > 0 ==> old(state).cursor < listed_after(*old(state), scan).len(),
    ensures
        final(state).rom_state == old(state).rom_state,
        cursor_fits(*old(state)) ==> cursor_fits(*final(state)),
        !old(state).rendered_message ==> r is Nothing && *final(state) == *old(state),
        old(state).rendered_message ==> {
            let listed = listed_after(*old(state), scan);
            let n = listed.len();
            let c = old(state).cursor;
            &&& final(state).points matches Some(p) && names_view(p@) == listed
            &&& if n == 0 {
                r is Nothing && final(state).cursor == c && final(state).scene == old(state).scene
            } else {
                match input {
                    Input::Up => r is Nothing && final(state).cursor == (if c > 0 {
                        c - 1
                    } else {
                        c as int
                    }) && final(state).scene == old(state).scene,
                    Input::Down => r is Nothing && final(state).cursor == (if c < n - 1 {
                        c + 1
                    } else {
                        c as int
                    }) && final(state).scene == old(state).scene,
                    Input::Select => r is Nothing && final(state).ssid@ == listed[c as int]
                        && final(state).scene == Scene::Password && final(state).cursor == 0
                        && final(state).wifi_wait == 0 && !final(state).rendered_message
                        && final(state).tcp_wait == 0 && final(state).show_password == 0,
                    Input::Back => r is Quit && final(state).cursor == c && final(state).scene
                        == old(state).scene,
                    _ => r is Nothing && final(state).cursor == c && final(state).scene == old(
                        state,
                    ).scene,
                }
            }
            &&& (n == 0 || input != Input::Select) ==> final(state).wifi_wait == old(
                state,
            ).wifi_wait + 1 && final(state).ssid == old(state).ssid
                && final(state).rendered_message == old(state).rendered_message
                && final(state).tcp_wait == old(state).tcp_wait
                && final(state).show_password == old(state).show_password
            &&& *final(state) == (State {
                points: final(state).points,
                cursor: final(state).cursor,
                wifi_wait: final(state).wifi_wait,
                ssid: final(state).ssid,
                scene: final(state).scene,
                rendered_message: final(state).rendered_message,
                tcp_wait: final(state).tcp_wait,
                show_password: final(state).show_password,
                ..*old(state)
            })
        },
{
    if !state.rendered_message {
        return PointsAction::Nothing;
    }
    state.wifi_wait = state.wifi_wait + 1;
    if let Some(new_points) = scan {
        match state.points.as_mut() {
            Some(old_points) => merge_points(old_points, new_points),
            None => state.points = Some(new_points),
        }
    }
    proof {
        lemma_merged(names_view(old(state).points->0@), names_view(scan->0@));
    }
    let points = state.points.as_ref().unwrap();
    let n = points.len();
    if n == 0 {
        return PointsAction::Nothing;
    }
    match input {
        Input::Up => {
            if state.cursor > 0 {
                state.cursor = state.cursor - 1;
            }
        },
        Input::Down => {
            if state.cursor < n - 1 {
                state.cursor = state.cursor + 1;
            }
        },
        Input::Select => {
            let ssid = points[state.cursor].clone();
            state.ssid = ssid;
            state.transition(Scene::Password);
        },
        Input::Back => return PointsAction::Quit,
        _ => {},
    }
    PointsAction::Nothing
}

} // verus!
