//! The workcell's plain facts: where the stations are, which are sterile,
//! which hold a plate, and how a pick-and-place moves one.
//!
//! Positions are in millimetres from the arm's base. The arm's motion itself
//! (joint angles, inverse kinematics) is floating point and lives outside this
//! library.

use vstd::prelude::*;

use crate::N_STATIONS;

verus! {

/// Upper and lower link lengths of the two-link arm.
pub const L1_MM: i32 = 450;
pub const L2_MM: i32 = 400;

#[derive(Debug, Clone, Copy)]
pub struct Station {
    pub x_mm: i32,
    pub y_mm: i32,
    pub name: &'static str,
    pub sterile: bool,
}

/// A point strictly inside the disc the arm can reach.
pub open spec fn within_reach(x: int, y: int) -> bool {
    x * x + y * y < (L1_MM + L2_MM) * (L1_MM + L2_MM)
}

/// Whether station `k` sits inside the sterile zone.
pub open spec fn sterile_at(k: int) -> bool {
    k == 2
}

/// The stations, spread across the arm's reachable arc at positive `y`.
pub fn stations() -> (r: [Station; 4])
    ensures
        r@[0].x_mm == -660 && r@[0].y_mm == 180 && r@[0].name@ == "incubator"@,
        r@[1].x_mm == 660 && r@[1].y_mm == 180 && r@[1].name@ == "reader"@,
        r@[2].x_mm == -300 && r@[2].y_mm == 680 && r@[2].name@ == "sterile bench"@,
        r@[3].x_mm == 400 && r@[3].y_mm == 620 && r@[3].name@ == "waste"@,
        forall|k: int| 0 <= k < 4 ==> #[trigger] r@[k].sterile == sterile_at(k),
        forall|k: int| 0 <= k < 4 ==> within_reach(#[trigger] r@[k].x_mm as int, r@[k].y_mm as int),
{
    let r = [
        Station { x_mm: -660, y_mm: 180, name: "incubator", sterile: false },
        Station { x_mm: 660, y_mm: 180, name: "reader", sterile: false },
        Station { x_mm: -300, y_mm: 680, name: "sterile bench", sterile: true },
        Station { x_mm: 400, y_mm: 620, name: "waste", sterile: false },
    ];
    assert forall|k: int| 0 <= k < 4 implies within_reach(#[trigger] r@[k].x_mm as int, r@[k].y_mm as int) by {
        assert(within_reach(-660, 180));
        assert(within_reach(660, 180));
        assert(within_reach(-300, 680));
        assert(within_reach(400, 620));
    }
    r
}

/// Which stations sit inside the sterile zone, read off [`stations`], so the
/// policy and the picture cannot disagree.
pub fn sterile_flags() -> (r: [bool; 4])
    ensures
        forall|k: int| 0 <= k < 4 ==> #[trigger] r@[k] == sterile_at(k),
{
    let all = stations();
    let mut out = [false; 4];
    let mut i: usize = 0;
    while i < N_STATIONS
        invariant
            0 <= i <= 4,
            forall|k: int| 0 <= k < 4 ==> #[trigger] all@[k].sterile == sterile_at(k),
            forall|k: int| 0 <= k < i ==> #[trigger] out@[k] == sterile_at(k),
        decreases 4 - i,
    {
        out[i] = all[i].sterile;
        i = i + 1;
    }
    out
}

/// Which stations hold a plate.
pub fn occupancy(plate_at: &[Option<u32>; 4]) -> (r: [bool; 4])
    ensures
        forall|k: int| 0 <= k < 4 ==> #[trigger] r@[k] == plate_at@[k] is Some,
{
    let mut out = [false; 4];
    let mut i: usize = 0;
    while i < N_STATIONS
        invariant
            0 <= i <= 4,
            forall|k: int| 0 <= k < i ==> #[trigger] out@[k] == plate_at@[k] is Some,
        decreases 4 - i,
    {
        out[i] = plate_at[i].is_some();
        i = i + 1;
    }
    out
}

/// The first station holding a plate, if any.
pub fn first_loaded(plate_at: &[Option<u32>; 4]) -> (r: Option<usize>)
    ensures
        match r {
            Some(i) => i < 4 && plate_at@[i as int] is Some && forall|k: int|
                0 <= k < i ==> #[trigger] plate_at@[k] is None,
            None => forall|k: int| 0 <= k < 4 ==> #[trigger] plate_at@[k] is None,
        },
{
    let mut i: usize = 0;
    while i < N_STATIONS
        invariant
            0 <= i <= 4,
            forall|k: int| 0 <= k < i ==> #[trigger] plate_at@[k] is None,
        decreases 4 - i,
    {
        if plate_at[i].is_some() {
            return Some(i);
        }
        i = i + 1;
    }
    None
}

/// Whether a move from `source` to `dest` names two different real stations.
pub fn valid_route(source: usize, dest: usize) -> (r: bool)
    ensures
        r == (source < N_STATIONS && dest < N_STATIONS && source != dest),
{
    source < N_STATIONS && dest < N_STATIONS && source != dest
}

/// The destination for a move away from `from` given a drawn station: the
/// drawn one, or the next one round when the draw lands on `from`.
pub fn destination_for(from: usize, drawn: usize) -> (r: usize)
    requires
        from < N_STATIONS,
        drawn < N_STATIONS,
    ensures
        r < N_STATIONS,
        r != from,
        r == if drawn == from { (drawn + 1) % (N_STATIONS as int) } else { drawn as int },
{
    if drawn == from {
        (drawn + 1) % N_STATIONS
    } else {
        drawn
    }
}

/// One gripper action of a pick-and-place.
#[derive(Debug, Clone, Copy, PartialEq, Eq, Structural)]
pub enum Action {
    Grasp(usize),
    Release(usize),
}

/// What `action` makes of the stations' plates and the gripper's plate.
pub open spec fn acted(plates: Seq<Option<u32>>, held: Option<u32>, action: Action) -> (Seq<Option<u32>>, Option<u32>) {
    match action {
        Action::Grasp(i) => (plates.update(i as int, None), plates[i as int]),
        Action::Release(i) => (plates.update(i as int, held), None),
    }
}

/// Grasping takes a station's plate into the gripper; releasing puts the
/// gripper's plate on a station.
pub fn apply_action(plate_at: &mut [Option<u32>; 4], held: &mut Option<u32>, action: Action)
    requires
        match action {
            Action::Grasp(i) => i < N_STATIONS,
            Action::Release(i) => i < N_STATIONS,
        },
    ensures
        (final(plate_at)@, *final(held)) == acted(old(plate_at)@, *old(held), action),
{
    match action {
        Action::Grasp(i) => {
            *held = plate_at[i].take();
        },
        Action::Release(i) => {
            plate_at[i] = held.take();
        },
    }
}

/// A grasp at `src` followed by a release at `dest`, starting empty-handed,
/// moves the plate at `src` to `dest`, empties `src` and the gripper, and
/// leaves every other station as it was.
pub proof fn transfer_moves_the_plate(plates: Seq<Option<u32>>, src: int, dest: int)
    requires
        plates.len() == 4,
        0 <= src < 4,
        0 <= dest < 4,
        src != dest,
    ensures
        ({
            let (p1, h1) = acted(plates, None, Action::Grasp(src as usize));
            let (p2, h2) = acted(p1, h1, Action::Release(dest as usize));
            &&& p2[dest] == plates[src]
            &&& p2[src] is None
            &&& h2 is None
            &&& forall|k: int| 0 <= k < 4 && k != src && k != dest ==> #[trigger] p2[k] == plates[k]
        }),
{
}

} // verus!
