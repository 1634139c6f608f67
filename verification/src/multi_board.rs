//! Fan-out motor backend across multiple boards, routed by an [`AxisMap`].

use vstd::prelude::*;

use crate::axis_map::{
    board_size, lemma_routes_injective, map_devices, route_of, validation_error, AxisMap,
    CableRoute,
};
use crate::backend::{advanced, zero_vec, zeros, MockBackend, MotorBackend};
use crate::errors::RuntimeError;
use crate::text::{decimal, push_chars, push_decimal, push_str, string_of, chars_of};

verus! {

/// Routes that place every cable on an existing board slot, no two cables on one slot.
pub open spec fn routes_fit(routes: Seq<CableRoute>, sizes: Seq<usize>) -> bool {
    &&& forall|c: int|
        0 <= c < routes.len() ==> #[trigger] routes[c].board < sizes.len()
            && routes[c].local < sizes[routes[c].board as int]
    &&& forall|c1: int, c2: int|
        0 <= c1 < routes.len() && 0 <= c2 < routes.len() && c1 != c2 ==> #[trigger] routes[c1]
            != #[trigger] routes[c2]
}

/// Per-board vectors: slot `(b, l)` holds the value of the cable routed there, else `zero`.
pub open spec fn fanned<T>(routes: Seq<CableRoute>, sizes: Seq<usize>, values: Seq<T>, zero: T) -> Seq<Seq<T>> {
    Seq::new(
        sizes.len(),
        |b: int|
            Seq::new(
                sizes[b] as nat,
                |l: int|
                    if exists|c: int|
                        0 <= c < routes.len() && #[trigger] routes[c] == (CableRoute {
                            board: b as usize,
                            local: l as usize,
                        }) {
                        values[choose|c: int|
                            0 <= c < routes.len() && #[trigger] routes[c] == (CableRoute {
                                board: b as usize,
                                local: l as usize,
                            })]
                    } else {
                        zero
                    },
            ),
    )
}

/// Cable `c`'s slot lies in the per-board vectors, and its value is the one
/// in its slot.
pub open spec fn slot_read(routes: Seq<CableRoute>, boards: Seq<Seq<i64>>, values: Seq<i64>, c: int) -> bool {
    &&& routes[c].board < boards.len()
    &&& routes[c].local < boards[routes[c].board as int].len()
    &&& values[c] == boards[routes[c].board as int][routes[c].local as int]
}

/// Every cable's slot lies in the per-board vectors, and each cable's value
/// is the one in its slot.
pub open spec fn gathered(values: Seq<i64>, boards: Seq<Seq<i64>>, routes: Seq<CableRoute>) -> bool {
    forall|c: int| 0 <= c < values.len() ==> #[trigger] slot_read(routes, boards, values, c)
}

/// Fanning out and reading back are inverse: with routes that fit, the slot
/// of every cable in the per-board vectors holds that cable's value.
pub proof fn lemma_fanned_reads_back<T>(routes: Seq<CableRoute>, sizes: Seq<usize>, values: Seq<T>, zero: T)
    requires
        routes_fit(routes, sizes),
        values.len() == routes.len(),
    ensures
        forall|c: int|
            0 <= c < routes.len() ==> fanned(routes, sizes, values, zero)[#[trigger] routes[c].board as int][routes[c].local as int]
                == values[c],
{
    assert forall|c: int| 0 <= c < routes.len() implies fanned(routes, sizes, values, zero)[#[trigger] routes[c].board as int][routes[c].local as int]
        == values[c] by {
        let b = routes[c].board as int;
        let l = routes[c].local as int;
        let slot = CableRoute { board: b as usize, local: l as usize };
        assert(routes[c] == slot);
        let w = choose|k: int| 0 <= k < routes.len() && #[trigger] routes[k] == slot;
        assert(0 <= w < routes.len() && routes[w] == slot);
        if w != c {
            assert(routes[w] != routes[c]);
        }
    }
}

/// Whether every route points at an existing board slot.
fn routes_in_bounds(routes: &Vec<CableRoute>, sizes: &Vec<usize>) -> (b: bool)
    ensures
        b == forall|a: int|
            0 <= a < routes@.len() ==> #[trigger] routes@[a].board < sizes@.len()
                && routes@[a].local < sizes@[routes@[a].board as int],
{
    let mut c: usize = 0;
    while c < routes.len()
        invariant
            0 <= c <= routes.len(),
            forall|a: int|
                0 <= a < c ==> #[trigger] routes@[a].board < sizes@.len()
                    && routes@[a].local < sizes@[routes@[a].board as int],
        decreases routes.len() - c,
    {
        let rt = routes[c];
        if rt.board >= sizes.len() || rt.local >= sizes[rt.board] {
            assert(!(routes@[c as int].board < sizes@.len() && routes@[c as int].local < sizes@[routes@[c as int].board as int]));
            return false;
        }
        c = c + 1;
    }
    true
}

/// Scatters one value per cable into per-board vectors along `routes`.
pub fn fan_out<T: Copy>(routes: &Vec<CableRoute>, sizes: &Vec<usize>, values: &[T], zero: T) -> (r: Vec<Vec<T>>)
    requires
        values@.len() == routes@.len(),
    ensures
        r@.len() == sizes@.len(),
        forall|b: int| 0 <= b < r@.len() ==> (#[trigger] r@[b])@.len() == sizes@[b],
        routes_fit(routes@, sizes@) ==> r@.map_values(|v: Vec<T>| v@) == fanned(
            routes@,
            sizes@,
            values@,
            zero,
        ),
{
    let mut out: Vec<Vec<T>> = Vec::new();
    let mut b: usize = 0;
    while b < sizes.len()
        invariant
            0 <= b <= sizes.len(),
            out@.len() == b,
            forall|k: int| 0 <= k < b ==> (#[trigger] out@[k])@ == Seq::new(sizes@[k] as nat, |l: int| zero),
        decreases sizes.len() - b,
    {
        let mut v: Vec<T> = Vec::new();
        let mut l: usize = 0;
        while l < sizes[b]
            invariant
                0 <= b < sizes.len(),
                0 <= l <= sizes@[b as int],
                v@ == Seq::new(l as nat, |i: int| zero),
            decreases sizes[b as int] - l,
        {
            v.push(zero);
            assert(v@ =~= Seq::new((l + 1) as nat, |i: int| zero));
            l = l + 1;
        }
        out.push(v);
        b = b + 1;
    }
    if !routes_in_bounds(routes, sizes) {
        return out;
    }
    let n_sizes = sizes.len();
    let mut c: usize = 0;
    while c < routes.len()
        invariant
            0 <= c <= routes.len(),
            n_sizes == sizes@.len(),
            forall|a: int|
                0 <= a < routes@.len() ==> #[trigger] routes@[a].board < sizes@.len()
                    && routes@[a].local < sizes@[routes@[a].board as int],
            values@.len() == routes@.len(),
            out@.len() == sizes@.len(),
            forall|k: int| 0 <= k < out@.len() ==> (#[trigger] out@[k])@.len() == sizes@[k],
            routes_fit(routes@, sizes@) ==> forall|k: int, l: int|
                0 <= k < sizes@.len() && 0 <= l < sizes@[k] ==> (#[trigger] out@[k]@[l]) == if exists|a: int|
                    0 <= a < c && #[trigger] routes@[a] == (CableRoute { board: k as usize, local: l as usize }) {
                    values@[choose|a: int|
                        0 <= a < c && #[trigger] routes@[a] == (CableRoute {
                            board: k as usize,
                            local: l as usize,
                        })]
                } else {
                    zero
                },
        decreases routes.len() - c,
    {
        let rt = routes[c];
        let ghost prev = out@;
        out[rt.board].set(rt.local, values[c]);
        proof {
        if routes_fit(routes@, sizes@) {
        assert forall|k: int, l: int|
            0 <= k < sizes@.len() && 0 <= l < sizes@[k] implies (#[trigger] out@[k]@[l]) == if exists|a: int|
                0 <= a < c + 1 && #[trigger] routes@[a] == (CableRoute { board: k as usize, local: l as usize }) {
                values@[choose|a: int|
                    0 <= a < c + 1 && #[trigger] routes@[a] == (CableRoute {
                        board: k as usize,
                        local: l as usize,
                    })]
            } else {
                zero
            } by {
            let key = CableRoute { board: k as usize, local: l as usize };
            if k == rt.board && l == rt.local {
                assert(routes@[c as int] == key);
                let a = choose|a: int| 0 <= a < c + 1 && #[trigger] routes@[a] == key;
                assert(a == c);
            } else {
                assert(out@[k]@[l] == prev[k]@[l]);
                if exists|a: int| 0 <= a < c + 1 && #[trigger] routes@[a] == key {
                    let a = choose|a: int| 0 <= a < c + 1 && #[trigger] routes@[a] == key;
                    assert(routes@[c as int] == rt);
                    assert((k as usize) as int == k && (l as usize) as int == l);
                    if a == c {
                        assert(rt.board as int == k && rt.local as int == l);
                    }
                    assert(a != c);
                    assert(exists|a: int| 0 <= a < c && #[trigger] routes@[a] == key);
                }
            }
        }
        }
        }
        c = c + 1;
    }
    proof {
    if routes_fit(routes@, sizes@) {
    assert(out@.map_values(|v: Vec<T>| v@) =~= fanned(routes@, sizes@, values@, zero)) by {
        assert forall|k: int| 0 <= k < sizes@.len() implies out@.map_values(|v: Vec<T>| v@)[k]
            =~= fanned(routes@, sizes@, values@, zero)[k] by {
            assert forall|l: int| 0 <= l < sizes@[k] implies #[trigger] out@[k]@[l]
                == fanned(routes@, sizes@, values@, zero)[k][l] by {
                let key = CableRoute { board: k as usize, local: l as usize };
                assert(fanned(routes@, sizes@, values@, zero)[k][l] == if exists|a: int|
                    0 <= a < routes@.len() && #[trigger] routes@[a] == key {
                    values@[choose|a: int| 0 <= a < routes@.len() && #[trigger] routes@[a] == key]
                } else {
                    zero
                });
            }
        }
    }
    }
    }
    out
}

/// Message when the number of boards differs from the number of devices.
pub open spec fn board_count_text(devices: nat, boards: nat) -> Seq<char> {
    "expected "@ + decimal(devices) + " boards for axis map, got "@ + decimal(boards)
}

/// Message when a board's axis count differs from the cables routed to it.
pub open spec fn board_axes_text(b: nat, device: Seq<char>, axes: nat, cables: nat) -> Seq<char> {
    "board "@ + decimal(b) + " ("@ + device + ") axis_count="@ + decimal(axes) + " but map has "@
        + decimal(cables) + " cables"@
}

/// The axis counts of the boards.
pub open spec fn board_axis_counts<B: MotorBackend>(boards: Seq<B>) -> Seq<nat> {
    boards.map_values(|bx: B| bx.counters().len())
}

/// The first board, from `b` on, whose axis count differs from its cable count.
pub open spec fn first_axes_mismatch(cables: Seq<crate::axis_map::AxisEndpoint>, axes: Seq<nat>, b: int) -> Option<Seq<char>>
    decreases axes.len() - b,
{
    if b < 0 || b >= axes.len() {
        None
    } else if axes[b] != board_size(cables, b) {
        Some(board_axes_text(b as nat, map_devices(cables)[b], axes[b], board_size(cables, b) as nat))
    } else {
        first_axes_mismatch(cables, axes, b + 1)
    }
}

/// Why building a backend from `cables` and boards with the given axis counts fails, if it does.
pub open spec fn build_error(cables: Seq<crate::axis_map::AxisEndpoint>, axes: Seq<nat>) -> Option<Seq<char>> {
    match validation_error(cables) {
        Some(m) => Some(m),
        None => if axes.len() != map_devices(cables).len() {
            Some(board_count_text(map_devices(cables).len(), axes.len()))
        } else {
            first_axes_mismatch(cables, axes, 0)
        },
    }
}

/// The board operations whose outcomes a multi-board backend records.
pub ghost enum BoardOp {
    /// A feedback read.
    Feedback,
    /// An e-stop.
    Estop,
    /// A hardware homing.
    Home,
    /// A move, with the step counts and step periods handed to the board.
    Move(Seq<i64>, Seq<u64>),
}

/// One call made on a board: the operation, the board's index, and what the
/// board gave back (the feedback it read; an empty sequence for a move, an
/// e-stop or a homing).
pub type BoardCall = (BoardOp, nat, Result<Seq<i64>, RuntimeError>);

/// The calls in `after` that follow those in `before`.
pub open spec fn calls_since(before: Seq<BoardCall>, after: Seq<BoardCall>) -> Seq<BoardCall> {
    after.skip(before.len() as int)
}

/// `after` is `before` followed by one pass of `op` over the boards `0, 1, ...`
/// in order (`boards` of them), which stops at the first board that fails.
pub open spec fn board_pass(before: Seq<BoardCall>, after: Seq<BoardCall>, op: BoardOp, boards: nat) -> bool {
    let pass = calls_since(before, after);
    &&& before.len() <= after.len()
    &&& after.take(before.len() as int) == before
    &&& pass.len() <= boards
    &&& forall|i: int| 0 <= i < pass.len() ==> (#[trigger] pass[i]).0 == op && pass[i].1 == i
    &&& forall|i: int| 0 <= i < pass.len() - 1 ==> (#[trigger] pass[i]).2 is Ok
    &&& pass.len() < boards ==> pass.len() > 0 && pass.last().2 is Err
}

/// The error of the board that stopped a pass, if one did.
pub open spec fn pass_failure(pass: Seq<BoardCall>) -> Option<RuntimeError> {
    if pass.len() > 0 && pass.last().2 is Err {
        Some(pass.last().2->Err_0)
    } else {
        None
    }
}

/// What each board of a pass gave back.
pub open spec fn pass_values(pass: Seq<BoardCall>) -> Seq<Seq<i64>> {
    pass.map_values(|c: BoardCall| c.2->Ok_0)
}

/// `Ok` where a pass stopped at no board, else the error that stopped it.
pub open spec fn pass_result(pass: Seq<BoardCall>) -> Result<(), RuntimeError> {
    match pass_failure(pass) {
        Some(e) => Err(e),
        None => Ok(()),
    }
}

/// Every one of the first `n` cables has a route whose slot lies in the
/// per-board vectors.
pub open spec fn slots_covered(routes: Seq<CableRoute>, boards: Seq<Seq<i64>>, n: nat) -> bool {
    forall|c: int|
        0 <= c < n ==> c < routes.len() && #[trigger] routes[c].board < boards.len()
            && routes[c].local < boards[routes[c].board as int].len()
}

/// `n` successful calls of `op` on the boards `0 .. n` that gave back nothing.
pub open spec fn done_calls(op: BoardOp, n: nat) -> Seq<BoardCall> {
    Seq::new(n, |k: int| (op, k as nat, Ok::<Seq<i64>, RuntimeError>(Seq::empty())))
}

/// Successful calls of `op` on the boards `0, 1, ...`, which gave back `vals`.
pub open spec fn read_calls(op: BoardOp, vals: Seq<Seq<i64>>) -> Seq<BoardCall> {
    Seq::new(vals.len(), |k: int| (op, k as nat, Ok::<Seq<i64>, RuntimeError>(vals[k])))
}

proof fn lemma_pass_stopped(before: Seq<BoardCall>, oks: Seq<BoardCall>, last: BoardCall, op: BoardOp, boards: nat)
    requires
        oks.len() < boards,
        forall|k: int| 0 <= k < oks.len() ==> (#[trigger] oks[k]).0 == op && oks[k].1 == k && oks[k].2 is Ok,
        last.0 == op,
        last.1 == oks.len(),
        last.2 is Err,
    ensures
        board_pass(before, before + oks.push(last), op, boards),
        calls_since(before, before + oks.push(last)) == oks.push(last),
        pass_failure(oks.push(last)) == Some(last.2->Err_0),
{
    let after = before + oks.push(last);
    assert(after.skip(before.len() as int) =~= oks.push(last));
    assert(after.take(before.len() as int) =~= before);
}

proof fn lemma_pass_done(before: Seq<BoardCall>, oks: Seq<BoardCall>, op: BoardOp)
    requires
        forall|k: int| 0 <= k < oks.len() ==> (#[trigger] oks[k]).0 == op && oks[k].1 == k && oks[k].2 is Ok,
    ensures
        board_pass(before, before + oks, op, oks.len()),
        calls_since(before, before + oks) == oks,
        pass_failure(oks) is None,
{
    let after = before + oks;
    assert(after.skip(before.len() as int) =~= oks);
    assert(after.take(before.len() as int) =~= before);
    if oks.len() > 0 {
        assert(oks[oks.len() - 1].2 is Ok);
    }
}

/// `after` is `before` followed by one move pass over the boards `0, 1, ...`
/// in order (`boards` of them), board `b` handed `steps[b]` and `delays[b]`,
/// which stops at the first board that fails.
pub open spec fn move_pass(
    before: Seq<BoardCall>,
    after: Seq<BoardCall>,
    steps: Seq<Seq<i64>>,
    delays: Seq<Seq<u64>>,
    boards: nat,
) -> bool {
    let pass = calls_since(before, after);
    &&& before.len() <= after.len()
    &&& after.take(before.len() as int) == before
    &&& pass.len() <= boards
    &&& forall|i: int|
        0 <= i < pass.len() ==> (#[trigger] pass[i]).0 == BoardOp::Move(steps[i], delays[i]) && pass[i].1 == i
    &&& forall|i: int| 0 <= i < pass.len() - 1 ==> (#[trigger] pass[i]).2 is Ok
    &&& pass.len() < boards ==> pass.len() > 0 && pass.last().2 is Err
}

/// What a board's move, e-stop or homing gave back, as a recorded outcome.
pub open spec fn unit_view(r: Result<(), RuntimeError>) -> Result<Seq<i64>, RuntimeError> {
    match r {
        Ok(_) => Ok(Seq::empty()),
        Err(e) => Err(e),
    }
}

/// Successful moves of the boards `0 .. n`, with what each was handed.
pub open spec fn moved_calls(steps: Seq<Seq<i64>>, delays: Seq<Seq<u64>>, n: nat) -> Seq<BoardCall> {
    Seq::new(n, |k: int| (BoardOp::Move(steps[k], delays[k]), k as nat, Ok::<Seq<i64>, RuntimeError>(Seq::empty())))
}

proof fn lemma_move_pass_stopped(
    before: Seq<BoardCall>,
    steps: Seq<Seq<i64>>,
    delays: Seq<Seq<u64>>,
    i: nat,
    e: RuntimeError,
    boards: nat,
)
    requires
        i < boards,
    ensures
        ({
            let after = before + moved_calls(steps, delays, i).push(
                (BoardOp::Move(steps[i as int], delays[i as int]), i, Err::<Seq<i64>, RuntimeError>(e)),
            );
            &&& move_pass(before, after, steps, delays, boards)
            &&& pass_result(calls_since(before, after)) == Err::<(), RuntimeError>(e)
        }),
{
    let last = (BoardOp::Move(steps[i as int], delays[i as int]), i, Err::<Seq<i64>, RuntimeError>(e));
    let pass = moved_calls(steps, delays, i).push(last);
    let after = before + pass;
    assert(after.skip(before.len() as int) =~= pass);
    assert(after.take(before.len() as int) =~= before);
}

proof fn lemma_move_pass_done(before: Seq<BoardCall>, steps: Seq<Seq<i64>>, delays: Seq<Seq<u64>>, n: nat)
    ensures
        ({
            let after = before + moved_calls(steps, delays, n);
            &&& move_pass(before, after, steps, delays, n)
            &&& pass_result(calls_since(before, after)) == Ok::<(), RuntimeError>(())
        }),
{
    let pass = moved_calls(steps, delays, n);
    let after = before + pass;
    assert(after.skip(before.len() as int) =~= pass);
    assert(after.take(before.len() as int) =~= before);
    if n > 0 {
        assert(pass[n - 1].2 is Ok);
    }
}

/// Composite backend: one [`MotorBackend`] per unique device in an [`AxisMap`].
pub struct MultiBoardBackend<B: MotorBackend> {
    map: AxisMap,
    boards: Vec<B>,
    routes: Vec<CableRoute>,
    sizes: Vec<usize>,
    positions: Vec<i64>,
    fed: Ghost<Seq<Seq<i64>>>,
    calls: Ghost<Seq<BoardCall>>,
}

impl<B: MotorBackend> MultiBoardBackend<B> {
    /// Every cable routed to its own slot on an existing board, one board per
    /// device, one counter per cable.
    pub closed spec fn well_routed(self) -> bool {
        &&& self.routes@.len() == self.positions@.len()
        &&& self.sizes@.len() == self.boards@.len()
        &&& routes_fit(self.routes@, self.sizes@)
    }

    /// The route of each cable.
    pub closed spec fn cable_routes(&self) -> Seq<CableRoute> {
        self.routes@
    }

    /// The number of cables on each board.
    pub closed spec fn slot_counts(&self) -> Seq<usize> {
        self.sizes@
    }

    /// The step counters of each board.
    pub closed spec fn board_counters(&self) -> Seq<Seq<i64>> {
        self.boards@.map_values(|bx: B| bx.counters())
    }

    /// The per-board feedback vectors returned to the last feedback read.
    pub closed spec fn last_feedback(&self) -> Seq<Seq<i64>> {
        self.fed@
    }

    /// Every call made on the boards by moves, feedback reads, e-stops and
    /// homings, in order.
    pub closed spec fn board_calls(&self) -> Seq<BoardCall> {
        self.calls@
    }

    /// The number of boards.
    pub closed spec fn board_total(&self) -> nat {
        self.boards@.len()
    }

    /// The routing map.
    pub closed spec fn axis_map(&self) -> AxisMap {
        self.map
    }

    /// Build from an axis map and already-opened per-device backends.
    ///
    /// `boards` must be ordered to match [`AxisMap::devices`] (first-seen device
    /// order). Each board's axis count must equal the number of cables mapped to
    /// that device.
    pub fn new(map: AxisMap, boards: Vec<B>) -> (r: Result<Self, RuntimeError>)
        ensures
            match build_error(map.cables@, board_axis_counts(boards@)) {
                Some(m) => r matches Err(RuntimeError::Config(s)) && s@ == m,
                None => r is Ok,
            },
            r matches Ok(mb) ==> {
                &&& mb.axis_map() == map
                &&& mb.well_routed()
                &&& mb.counters() == zeros(map.cables@.len())
                &&& mb.cable_routes().len() == map.cables@.len()
                &&& forall|c: int|
                    0 <= c < map.cables@.len() ==> (#[trigger] mb.cable_routes()[c].board as int,
                    mb.cable_routes()[c].local as int) == route_of(map.cables@, c)
                &&& mb.slot_counts().len() == map_devices(map.cables@).len()
                &&& forall|b: int|
                    0 <= b < mb.slot_counts().len() ==> #[trigger] mb.slot_counts()[b] as int
                        == board_size(map.cables@, b)
            },
    {
        let v = map.validate();
        if v.is_err() {
            return Err(v.unwrap_err());
        }
        assert(validation_error(map.cables@) is None);
        let devices = map.devices();
        assert(devices@.len() == map_devices(map.cables@).len()) by {
            assert(devices@.map_values(|s: String| s@).len() == devices@.len());
        }
        assert(board_axis_counts(boards@).len() == boards@.len());
        if boards.len() != devices.len() {
            let mut m: Vec<char> = Vec::new();
            push_str(&mut m, "expected ");
            push_decimal(&mut m, devices.len() as u64);
            push_str(&mut m, " boards for axis map, got ");
            push_decimal(&mut m, boards.len() as u64);
            assert(m@ =~= board_count_text(map_devices(map.cables@).len(), boards@.len()));
            assert(build_error(map.cables@, board_axis_counts(boards@)) == Some(board_count_text(map_devices(map.cables@).len(), boards@.len())));
            return Err(RuntimeError::Config(string_of(&m)));
        }
        let sizes = map.board_sizes(&devices);
        let ghost axes = board_axis_counts(boards@);
        let mut b: usize = 0;
        while b < devices.len()
            invariant
                0 <= b <= devices.len(),
                boards@.len() == devices@.len() == sizes@.len(),
                devices@.map_values(|s: String| s@) == map_devices(map.cables@),
                axes == board_axis_counts(boards@),
                validation_error(map.cables@) is None,
                devices@.len() == map_devices(map.cables@).len(),
                forall|k: int| 0 <= k < sizes@.len() ==> #[trigger] sizes@[k] as int == board_size(map.cables@, k),
                first_axes_mismatch(map.cables@, axes, 0) == first_axes_mismatch(map.cables@, axes, b as int),
            decreases devices.len() - b,
        {
            let ac = boards[b].axis_count();
            assert(axes[b as int] == ac);
            if ac != sizes[b] {
                assert(map_devices(map.cables@)[b as int] == devices@[b as int]@);
                let mut m: Vec<char> = Vec::new();
                push_str(&mut m, "board ");
                push_decimal(&mut m, b as u64);
                push_str(&mut m, " (");
                let dv = chars_of(devices[b].as_str());
                push_chars(&mut m, &dv);
                push_str(&mut m, ") axis_count=");
                push_decimal(&mut m, ac as u64);
                push_str(&mut m, " but map has ");
                push_decimal(&mut m, sizes[b] as u64);
                push_str(&mut m, " cables");
                proof {
                    let txt = board_axes_text(
                        b as nat,
                        map_devices(map.cables@)[b as int],
                        axes[b as int],
                        board_size(map.cables@, b as int) as nat,
                    );
                    assert(m@ =~= txt);
                    assert(axes.len() == boards@.len());
                    assert(first_axes_mismatch(map.cables@, axes, b as int) == Some(txt));
                }
                return Err(RuntimeError::Config(string_of(&m)));
            }
            b = b + 1;
        }
        let routes = map.routes(&devices);
        proof {
            lemma_routes_injective(map.cables@);
            assert forall|c1: int, c2: int|
                0 <= c1 < routes@.len() && 0 <= c2 < routes@.len() && c1 != c2 implies #[trigger] routes@[c1]
                    != #[trigger] routes@[c2] by {
                assert(route_of(map.cables@, c1) != route_of(map.cables@, c2));
                assert((routes@[c1].board as int, routes@[c1].local as int) == route_of(map.cables@, c1));
                assert((routes@[c2].board as int, routes@[c2].local as int) == route_of(map.cables@, c2));
            }
            assert forall|c: int| 0 <= c < routes@.len() implies #[trigger] routes@[c].board < sizes@.len()
                && routes@[c].local < sizes@[routes@[c].board as int] by {
                let rc = route_of(map.cables@, c);
                assert(rc == route_of(map.cables@, c));
            }
        }
        let positions = zero_vec(map.cables.len());
        Ok(MultiBoardBackend { map, boards, routes, sizes, positions, fed: Ghost(Seq::empty()), calls: Ghost(Seq::empty()) })
    }

    /// Underlying axis map.
    pub fn map(&self) -> (m: &AxisMap)
        ensures
            *m == self.axis_map(),
    {
        &self.map
    }

    /// Number of physical boards.
    pub fn board_count(&self) -> (n: usize)
        ensures
            self.well_routed() ==> n == self.slot_counts().len(),
    {
        self.boards.len()
    }
}

impl MultiBoardBackend<MockBackend> {
    /// Dry-run: one [`MockBackend`] per device.
    pub fn mock_from_map(map: AxisMap) -> (r: Result<Self, RuntimeError>)
        ensures
            match validation_error(map.cables@) {
                Some(m) => r matches Err(RuntimeError::Config(s)) && s@ == m,
                None => r is Ok,
            },
            r matches Ok(mb) ==> mb.axis_map() == map && mb.counters() == zeros(map.cables@.len()),
    {
        let devices = map.devices();
        let mut boards: Vec<MockBackend> = Vec::new();
        let mut b: usize = 0;
        while b < devices.len()
            invariant
                0 <= b <= devices.len(),
                devices@.map_values(|s: String| s@) == map_devices(map.cables@),
                boards@.len() == b,
                board_axis_counts(boards@) == Seq::new(b as nat, |k: int| board_size(map.cables@, k) as nat),
            decreases devices.len() - b,
        {
            let n = map.count_on_device(&devices[b]);
            assert(map_devices(map.cables@)[b as int] == devices@[b as int]@);
            let mb = MockBackend::new(n);
            let bx = mb;
            let ghost before = boards@;
            boards.push(bx);
            assert(boards@[b as int].counters().len() == n);
            assert(board_axis_counts(boards@) =~= Seq::new((b + 1) as nat, |k: int| board_size(map.cables@, k) as nat)) by {
                assert forall|k: int| 0 <= k < b + 1 implies board_axis_counts(boards@)[k] == board_size(map.cables@, k) as nat by {
                    if k < b {
                        assert(boards@[k] == before[k]);
                        assert(board_axis_counts(before)[k] == board_size(map.cables@, k) as nat);
                    }
                }
            }
            b = b + 1;
        }
        proof {
            assert(board_axis_counts(boards@).len() == map_devices(map.cables@).len());
            assert forall|k: int| 0 <= k < board_axis_counts(boards@).len() implies #[trigger] board_axis_counts(boards@)[k] as int == board_size(map.cables@, k) by {}
            lemma_no_axes_mismatch(map.cables@, board_axis_counts(boards@), 0);
        }
        Self::new(map, boards)
    }

}

proof fn lemma_no_axes_mismatch(cables: Seq<crate::axis_map::AxisEndpoint>, axes: Seq<nat>, b: int)
    requires
        0 <= b,
        forall|k: int| 0 <= k < axes.len() ==> #[trigger] axes[k] as int == board_size(cables, k),
    ensures
        first_axes_mismatch(cables, axes, b) is None,
    decreases axes.len() - b,
{
    if b < axes.len() {
        lemma_no_axes_mismatch(cables, axes, b + 1);
    }
}

impl<B: MotorBackend> MotorBackend for MultiBoardBackend<B> {
    closed spec fn counters(&self) -> Seq<i64> {
        self.positions@
    }

    fn axis_count(&self) -> (n: usize) {
        self.positions.len()
    }

    fn move_steps(&mut self, steps: &[i64], delays_us: &[u64]) -> (r: Result<(), RuntimeError>)
        ensures
            (steps@.len() != old(self).counters().len() || delays_us@.len()
                != old(self).counters().len()) ==> (r matches Err(RuntimeError::Config(m)) && m@
                == "step/delay length mismatch for multi-board"@),
            (steps@.len() != old(self).counters().len() || delays_us@.len()
                != old(self).counters().len()) ==> final(self).board_calls() == old(self).board_calls(),
            (old(self).well_routed() && steps@.len() == old(self).counters().len() && delays_us@.len()
                == old(self).counters().len()) ==> {
                &&& move_pass(
                    old(self).board_calls(),
                    final(self).board_calls(),
                    fanned(old(self).cable_routes(), old(self).slot_counts(), steps@, 0i64),
                    fanned(old(self).cable_routes(), old(self).slot_counts(), delays_us@, 0u64),
                    old(self).board_total(),
                )
                &&& r == pass_result(calls_since(old(self).board_calls(), final(self).board_calls()))
            },
            final(self).board_total() == old(self).board_total(),
            (old(self).well_routed() && r is Ok) ==> final(self).board_counters() == Seq::new(
                old(self).board_counters().len(),
                |b: int|
                    advanced(
                        old(self).board_counters()[b],
                        fanned(old(self).cable_routes(), old(self).slot_counts(), steps@, 0i64)[b],
                    ),
            ),
            r is Ok ==> final(self).counters() == advanced(old(self).counters(), steps@),
            r is Err ==> final(self).counters() == old(self).counters(),
            final(self).cable_routes() == old(self).cable_routes(),
            final(self).slot_counts() == old(self).slot_counts(),
            final(self).well_routed() == old(self).well_routed(),
    {
        if steps.len() != self.positions.len() || delays_us.len() != self.positions.len()
            || self.routes.len() != self.positions.len() {
            return Err(
                RuntimeError::Config(String::from_str("step/delay length mismatch for multi-board")),
            );
        }
        let board_steps = fan_out(&self.routes, &self.sizes, steps, 0i64);
        let board_delays = fan_out(&self.routes, &self.sizes, delays_us, 0u64);
        let ghost handed = board_steps@.map_values(|v: Vec<i64>| v@);
        let ghost handed_delays = board_delays@.map_values(|v: Vec<u64>| v@);
        let nb = self.boards.len();
        let mut i: usize = 0;
        while i < nb && i < board_steps.len()
            invariant
                0 <= i <= nb,
                nb == self.boards@.len() == old(self).boards@.len(),
                steps@.len() == old(self).positions@.len(),
                delays_us@.len() == old(self).positions@.len(),
                old(self).routes@.len() == old(self).positions@.len(),
                board_steps@.len() == board_delays@.len() == self.sizes@.len(),
                self.positions@ == old(self).positions@,
                self.routes@ == old(self).routes@,
                self.sizes@ == old(self).sizes@,
                old(self).well_routed() ==> handed == fanned(old(self).routes@, old(self).sizes@, steps@, 0i64),
                old(self).well_routed() ==> handed_delays == fanned(old(self).routes@, old(self).sizes@, delays_us@, 0u64),
                handed == board_steps@.map_values(|v: Vec<i64>| v@),
                handed_delays == board_delays@.map_values(|v: Vec<u64>| v@),
                self.calls@ == old(self).calls@ + moved_calls(handed, handed_delays, i as nat),
                forall|b: int|
                    0 <= b < nb ==> #[trigger] self.boards@[b].counters() == if b < i {
                        advanced(old(self).boards@[b].counters(), handed[b])
                    } else {
                        old(self).boards@[b].counters()
                    },
            decreases nb - i,
        {
            let ghost before = self.boards@;
            let res = self.boards[i].move_steps(board_steps[i].as_slice(), board_delays[i].as_slice());
            assert(handed[i as int] == board_steps@[i as int]@);
            assert(handed_delays[i as int] == board_delays@[i as int]@);
            self.calls = Ghost(self.calls@.push((BoardOp::Move(handed[i as int], handed_delays[i as int]), i as nat, unit_view(res))));
            if res.is_err() {
                proof {
                    lemma_move_pass_stopped(old(self).calls@, handed, handed_delays, i as nat, res->Err_0, nb as nat);
                }
                return res;
            }
            assert(self.calls@ =~= old(self).calls@ + moved_calls(handed, handed_delays, (i + 1) as nat));
            assert forall|b: int| 0 <= b < nb && b != i implies #[trigger] self.boards@[b] == before[b] by {}
            i = i + 1;
        }
        let ghost moved = self.boards@;
        let ghost calls_after = self.calls@;
        proof {
            if old(self).well_routed() {
                lemma_move_pass_done(old(self).calls@, handed, handed_delays, nb as nat);
            }
        }
        let n = steps.len();
        let mut k: usize = 0;
        while k < n
            invariant
                0 <= k <= n,
                n == steps@.len(),
                self.positions@.len() == n,
                self.routes@ == old(self).routes@,
                self.sizes@ == old(self).sizes@,
                self.boards@ == moved,
                self.calls@ == calls_after,
                forall|j: int|
                    0 <= j < n ==> #[trigger] self.positions@[j] == if j < k {
                        old(self).positions@[j].wrapping_add(steps@[j])
                    } else {
                        old(self).positions@[j]
                    },
            decreases n - k,
        {
            let v = self.positions[k].wrapping_add(steps[k]);
            self.positions.set(k, v);
            k = k + 1;
        }
        assert(self.positions@ =~= advanced(old(self).positions@, steps@));
        Ok(())
    }

    fn positions(&self) -> (p: &[i64]) {
        self.positions.as_slice()
    }

    fn read_feedback_steps(&mut self) -> (r: Result<Vec<i64>, RuntimeError>)
        ensures
            r matches Ok(v) ==> final(self).counters() == v@,
            r matches Ok(v) ==> v@.len() == old(self).counters().len() && gathered(
                v@,
                final(self).last_feedback(),
                final(self).cable_routes(),
            ),
            r is Err ==> final(self).counters() == old(self).counters(),
            final(self).cable_routes() == old(self).cable_routes(),
            final(self).well_routed() == old(self).well_routed(),
            final(self).board_total() == old(self).board_total(),
            board_pass(old(self).board_calls(), final(self).board_calls(), BoardOp::Feedback, old(self).board_total()),
            ({
                let pass = calls_since(old(self).board_calls(), final(self).board_calls());
                let covered = slots_covered(old(self).cable_routes(), pass_values(pass), old(self).counters().len());
                &&& pass_failure(pass) matches Some(e) ==> r == Err::<Vec<i64>, RuntimeError>(e)
                &&& pass_failure(pass) is None ==> (r is Ok <==> covered)
                &&& (pass_failure(pass) is None && !covered) ==> (r matches Err(RuntimeError::Backend(m))
                    && m@ == "board feedback shorter than its axis count"@)
                &&& r is Ok ==> final(self).last_feedback() == pass_values(pass)
            }),
    {
        let nb = self.boards.len();
        let mut board_fb: Vec<Vec<i64>> = Vec::new();
        let mut i: usize = 0;
        while i < nb
            invariant
                0 <= i <= nb,
                nb == self.boards@.len(),
                board_fb@.len() == i,
                self.boards@.len() == old(self).boards@.len(),
                self.positions@ == old(self).positions@,
                self.routes@ == old(self).routes@,
                self.sizes@ == old(self).sizes@,
                self.calls@ == old(self).calls@ + read_calls(BoardOp::Feedback, board_fb@.map_values(|v: Vec<i64>| v@)),
            decreases nb - i,
        {
            let res = self.boards[i].read_feedback_steps();
            match res {
                Ok(fb) => {
                    let ghost prev = board_fb@.map_values(|v: Vec<i64>| v@);
                    self.calls = Ghost(self.calls@.push((BoardOp::Feedback, i as nat, Ok(fb@))));
                    board_fb.push(fb);
                    assert(board_fb@.map_values(|v: Vec<i64>| v@) =~= prev.push(board_fb@[i as int]@));
                    assert(self.calls@ =~= old(self).calls@ + read_calls(BoardOp::Feedback, board_fb@.map_values(|v: Vec<i64>| v@)));
                },
                Err(e) => {
                    let ghost oks = read_calls(BoardOp::Feedback, board_fb@.map_values(|v: Vec<i64>| v@));
                    self.calls = Ghost(self.calls@.push((BoardOp::Feedback, i as nat, Err(e))));
                    proof {
                        lemma_pass_stopped(old(self).calls@, oks, (BoardOp::Feedback, i as nat, Err(e)), BoardOp::Feedback, nb as nat);
                    }
                    return Err(e);
                },
            }
            i = i + 1;
        }
        let ghost bc = board_fb@.map_values(|v: Vec<i64>| v@);
        proof {
            lemma_pass_done(old(self).calls@, read_calls(BoardOp::Feedback, bc), BoardOp::Feedback);
            assert(pass_values(read_calls(BoardOp::Feedback, bc)) =~= bc);
            assert(calls_since(old(self).calls@, self.calls@) == read_calls(BoardOp::Feedback, bc));
        }
        let n = self.positions.len();
        let mut out: Vec<i64> = zero_vec(n);
        let mut c: usize = 0;
        while c < n
            invariant
                0 <= c <= n,
                c <= self.routes@.len(),
                n == self.positions@.len(),
                out@.len() == n,
                self.positions@ == old(self).positions@,
                self.routes@ == old(self).routes@,
                self.sizes@ == old(self).sizes@,
                self.boards@.len() == old(self).boards@.len(),
                self.calls@ == old(self).calls@ + read_calls(BoardOp::Feedback, bc),
                board_pass(old(self).calls@, self.calls@, BoardOp::Feedback, nb as nat),
                calls_since(old(self).calls@, self.calls@) == read_calls(BoardOp::Feedback, bc),
                pass_failure(read_calls(BoardOp::Feedback, bc)) is None,
                pass_values(read_calls(BoardOp::Feedback, bc)) == bc,
                nb == board_fb@.len() == bc.len() == old(self).boards@.len(),
                bc == board_fb@.map_values(|v: Vec<i64>| v@),
                forall|j: int| 0 <= j < c ==> #[trigger] slot_read(self.routes@, bc, out@, j),
            decreases n - c,
        {
            if c >= self.routes.len() {
                assert(!slots_covered(self.routes@, bc, n as nat)) by {
                    if slots_covered(self.routes@, bc, n as nat) {
                        assert(self.routes@[c as int].board < bc.len());
                    }
                }
                return Err(
                    RuntimeError::Backend(
                        String::from_str("board feedback shorter than its axis count"),
                    ),
                );
            }
            let rt = self.routes[c];
            if rt.board >= board_fb.len() || rt.local >= board_fb[rt.board].len() {
                assert(!slots_covered(self.routes@, bc, n as nat)) by {
                    assert(self.routes@[c as int] == rt);
                    if slots_covered(self.routes@, bc, n as nat) {
                        assert(self.routes@[c as int].board < bc.len());
                        assert(bc[rt.board as int] == board_fb@[rt.board as int]@);
                    }
                }
                return Err(
                    RuntimeError::Backend(
                        String::from_str("board feedback shorter than its axis count"),
                    ),
                );
            }
            let v = board_fb[rt.board][rt.local];
            proof {
                assert(bc[rt.board as int] == board_fb@[rt.board as int]@);
            }
            let ghost before = out@;
            out.set(c, v);
            assert forall|j: int| 0 <= j < c + 1 implies #[trigger] slot_read(
                self.routes@,
                bc,
                out@,
                j,
            ) by {
                if j < c {
                    assert(slot_read(self.routes@, bc, before, j));
                    assert(out@[j] == before[j]);
                }
            }
            c = c + 1;
        }
        assert(slots_covered(self.routes@, bc, n as nat)) by {
            assert forall|j: int| 0 <= j < n implies j < self.routes@.len() && #[trigger] self.routes@[j].board < bc.len()
                && self.routes@[j].local < bc[self.routes@[j].board as int].len() by {
                assert(slot_read(self.routes@, bc, out@, j));
            }
        }
        self.positions = vstd::slice::slice_to_vec(out.as_slice());
        self.fed = Ghost(bc);
        Ok(out)
    }

    fn estop(&mut self) -> (r: Result<(), RuntimeError>)
        ensures
            final(self).counters() == old(self).counters(),
            final(self).cable_routes() == old(self).cable_routes(),
            final(self).well_routed() == old(self).well_routed(),
            final(self).board_total() == old(self).board_total(),
            board_pass(old(self).board_calls(), final(self).board_calls(), BoardOp::Estop, old(self).board_total()),
            r == pass_result(calls_since(old(self).board_calls(), final(self).board_calls())),
    {
        let nb = self.boards.len();
        let mut i: usize = 0;
        while i < nb
            invariant
                0 <= i <= nb,
                nb == self.boards@.len() == old(self).boards@.len(),
                self.positions@ == old(self).positions@,
                self.routes@ == old(self).routes@,
                self.sizes@ == old(self).sizes@,
                self.calls@ == old(self).calls@ + done_calls(BoardOp::Estop, i as nat),
            decreases nb - i,
        {
            let res = self.boards[i].estop();
            match res {
                Ok(()) => {
                    self.calls = Ghost(self.calls@.push((BoardOp::Estop, i as nat, Ok(Seq::empty()))));
                    assert(self.calls@ =~= old(self).calls@ + done_calls(BoardOp::Estop, (i + 1) as nat));
                },
                Err(e) => {
                    self.calls = Ghost(self.calls@.push((BoardOp::Estop, i as nat, Err(e))));
                    proof {
                        lemma_pass_stopped(old(self).calls@, done_calls(BoardOp::Estop, i as nat), (BoardOp::Estop, i as nat, Err(e)), BoardOp::Estop, nb as nat);
                    }
                    return Err(e);
                },
            }
            i = i + 1;
        }
        proof {
            lemma_pass_done(old(self).calls@, done_calls(BoardOp::Estop, nb as nat), BoardOp::Estop);
        }
        Ok(())
    }

    fn home_hardware(&mut self) -> (r: Result<(), RuntimeError>)
        ensures
            r is Ok ==> final(self).counters() == zeros(old(self).counters().len()),
            r is Err ==> final(self).counters() == old(self).counters(),
            final(self).cable_routes() == old(self).cable_routes(),
            final(self).well_routed() == old(self).well_routed(),
            final(self).board_total() == old(self).board_total(),
            board_pass(old(self).board_calls(), final(self).board_calls(), BoardOp::Home, old(self).board_total()),
            r == pass_result(calls_since(old(self).board_calls(), final(self).board_calls())),
    {
        let nb = self.boards.len();
        let mut i: usize = 0;
        while i < nb
            invariant
                0 <= i <= nb,
                nb == self.boards@.len() == old(self).boards@.len(),
                self.positions@ == old(self).positions@,
                self.routes@ == old(self).routes@,
                self.sizes@ == old(self).sizes@,
                self.calls@ == old(self).calls@ + done_calls(BoardOp::Home, i as nat),
            decreases nb - i,
        {
            let res = self.boards[i].home_hardware();
            match res {
                Ok(()) => {
                    self.calls = Ghost(self.calls@.push((BoardOp::Home, i as nat, Ok(Seq::empty()))));
                    assert(self.calls@ =~= old(self).calls@ + done_calls(BoardOp::Home, (i + 1) as nat));
                },
                Err(e) => {
                    self.calls = Ghost(self.calls@.push((BoardOp::Home, i as nat, Err(e))));
                    proof {
                        lemma_pass_stopped(old(self).calls@, done_calls(BoardOp::Home, i as nat), (BoardOp::Home, i as nat, Err(e)), BoardOp::Home, nb as nat);
                    }
                    return Err(e);
                },
            }
            i = i + 1;
        }
        proof {
            lemma_pass_done(old(self).calls@, done_calls(BoardOp::Home, nb as nat), BoardOp::Home);
        }
        let n = self.positions.len();
        self.positions = zero_vec(n);
        Ok(())
    }
}


proof fn lemma_no_mismatch_from(cables: Seq<crate::axis_map::AxisEndpoint>, axes: Seq<nat>, b: int)
    requires
        0 <= b,
    ensures
        first_axes_mismatch(cables, axes, b) is None <==> forall|k: int|
            b <= k < axes.len() ==> #[trigger] axes[k] == board_size(cables, k),
    decreases axes.len() - b,
{
    if b < axes.len() {
        lemma_no_mismatch_from(cables, axes, b + 1);
    }
}

/// A multi-board backend is built exactly when the axis map is valid, there
/// is one board per device of the map, and every board has exactly as many
/// axes as the map routes cables to its device: a board with fewer axes or
/// with more is refused.
pub proof fn lemma_build_needs_matching_boards(cables: Seq<crate::axis_map::AxisEndpoint>, axes: Seq<nat>)
    ensures
        build_error(cables, axes) is None <==> {
            &&& validation_error(cables) is None
            &&& axes.len() == map_devices(cables).len()
            &&& forall|b: int| 0 <= b < axes.len() ==> #[trigger] axes[b] == board_size(cables, b)
        },
{
    lemma_no_mismatch_from(cables, axes, 0);
}


/// Fanning out gives each board a vector as long as its slot count, and a
/// slot that no cable is routed to gets `zero`: a board axis with no cable
/// on it is never moved.
pub proof fn lemma_unrouted_slots_idle<T>(routes: Seq<CableRoute>, sizes: Seq<usize>, values: Seq<T>, zero: T)
    requires
        sizes.len() <= usize::MAX,
    ensures
        fanned(routes, sizes, values, zero).len() == sizes.len(),
        forall|b: int| 0 <= b < sizes.len() ==> (#[trigger] fanned(routes, sizes, values, zero)[b]).len() == sizes[b],
        forall|b: int, l: int|
            0 <= b < sizes.len() && 0 <= l < sizes[b] && (forall|c: int|
                0 <= c < routes.len() ==> !(routes[c].board == b && routes[c].local == l)) ==> #[trigger] fanned(
                routes,
                sizes,
                values,
                zero,
            )[b][l] == zero,
{
    assert forall|b: int, l: int|
        0 <= b < sizes.len() && 0 <= l < sizes[b] && (forall|c: int|
            0 <= c < routes.len() ==> !(routes[c].board == b && routes[c].local == l)) implies #[trigger] fanned(
            routes,
            sizes,
            values,
            zero,
        )[b][l] == zero by {
        let slot = CableRoute { board: b as usize, local: l as usize };
        if exists|c: int| 0 <= c < routes.len() && #[trigger] routes[c] == slot {
            let c = choose|c: int| 0 <= c < routes.len() && #[trigger] routes[c] == slot;
            assert((b as usize) as int == b && (l as usize) as int == l);
            assert(routes[c].board == b && routes[c].local == l);
        }
    }
}

} // verus!
