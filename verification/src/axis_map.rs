//! Cable → device/axis routing for multi-board setups.

use vstd::prelude::*;

use crate::errors::RuntimeError;
use crate::text::{decimal, push_decimal, push_str, string_of};

verus! {

/// One physical motor endpoint, by what the routing reads of it.
#[derive(Clone, Debug, PartialEq, Eq)]
pub struct AxisEndpoint {
    /// Transport device: serial path or `host:port`.
    pub device: String,
    /// Baud (ignored for TCP).
    pub baud: u32,
    /// Axis index on that device (ODrive 0/1, or stepper board axis).
    pub axis: u8,
    /// Whether the motor's steps per revolution is greater than zero.
    pub steps_per_rev_positive: bool,
}

/// Map from cable index → endpoint (length must equal cable count).
#[derive(Clone, Debug)]
pub struct AxisMap {
    /// Ordered endpoints, one per cable.
    pub cables: Vec<AxisEndpoint>,
}

/// The device names of the cables, in cable order.
pub open spec fn device_names(cables: Seq<AxisEndpoint>) -> Seq<Seq<char>> {
    cables.map_values(|e: AxisEndpoint| e.device@)
}

/// The distinct elements of `s`, in order of first appearance.
pub open spec fn first_seen(s: Seq<Seq<char>>) -> Seq<Seq<char>>
    decreases s.len(),
{
    if s.len() == 0 {
        seq![]
    } else {
        let prev = first_seen(s.drop_last());
        if prev.contains(s.last()) {
            prev
        } else {
            prev.push(s.last())
        }
    }
}

/// The devices of a map, first-seen order.
pub open spec fn map_devices(cables: Seq<AxisEndpoint>) -> Seq<Seq<char>> {
    first_seen(device_names(cables))
}

/// Index of the first occurrence of `x` in `s` (`s.len()` if absent).
pub open spec fn position_of(s: Seq<Seq<char>>, x: Seq<char>) -> nat
    decreases s.len(),
{
    if s.len() == 0 {
        0
    } else if s[0] == x {
        0
    } else {
        1 + position_of(s.drop_first(), x)
    }
}

/// Cable `a` is routed before cable `c` on their common device: same device,
/// and smaller axis index, or equal axis index and smaller cable index.
pub open spec fn routed_before(cables: Seq<AxisEndpoint>, a: int, c: int) -> bool {
    &&& cables[a].device@ == cables[c].device@
    &&& (cables[a].axis < cables[c].axis || (cables[a].axis == cables[c].axis && a < c))
}

/// How many of the first `k` cables are routed before cable `c`.
pub open spec fn rank_among(cables: Seq<AxisEndpoint>, c: int, k: int) -> nat
    decreases k,
{
    if k <= 0 {
        0
    } else {
        rank_among(cables, c, k - 1) + if routed_before(cables, k - 1, c) {
            1nat
        } else {
            0nat
        }
    }
}

/// How many of the first `k` cables sit on device `d`.
pub open spec fn count_on(cables: Seq<AxisEndpoint>, d: Seq<char>, k: int) -> nat
    decreases k,
{
    if k <= 0 {
        0
    } else {
        count_on(cables, d, k - 1) + if cables[k - 1].device@ == d {
            1nat
        } else {
            0nat
        }
    }
}

/// Route of a cable: the board of its device, and its place among that
/// device's cables sorted by axis index (ties by cable order).
pub open spec fn route_of(cables: Seq<AxisEndpoint>, c: int) -> (int, int) {
    (
        position_of(map_devices(cables), cables[c].device@) as int,
        rank_among(cables, c, cables.len() as int) as int,
    )
}

/// Number of cables routed to board `b`.
pub open spec fn board_size(cables: Seq<AxisEndpoint>, b: int) -> int {
    count_on(cables, map_devices(cables)[b], cables.len() as int) as int
}

/// The first validation failure of a map, if any.
pub open spec fn validation_error(cables: Seq<AxisEndpoint>) -> Option<Seq<char>> {
    if cables.len() == 0 {
        Some("axis map empty"@)
    } else {
        first_bad_cable(cables, 0)
    }
}

/// The first failure among cables `i..`: a non-positive steps per revolution,
/// then an empty device name.
pub open spec fn first_bad_cable(cables: Seq<AxisEndpoint>, i: int) -> Option<Seq<char>>
    decreases cables.len() - i,
{
    if i < 0 || i >= cables.len() {
        None
    } else if !cables[i].steps_per_rev_positive {
        Some("cable "@ + decimal(i as nat) + " steps_per_rev must be > 0"@)
    } else if cables[i].device@.len() == 0 {
        Some("cable "@ + decimal(i as nat) + " device empty"@)
    } else {
        first_bad_cable(cables, i + 1)
    }
}

/// `"cable <i><tail>"`.
fn cable_message(i: usize, tail: &str) -> (r: String)
    ensures
        r@ == "cable "@ + decimal(i as nat) + tail@,
{
    let mut v: Vec<char> = Vec::new();
    push_str(&mut v, "cable ");
    push_decimal(&mut v, i as u64);
    push_str(&mut v, tail);
    string_of(&v)
}

/// An endpoint of the example map: on `device` at 115200 baud, axis `axis`,
/// with a positive steps per revolution.
pub open spec fn example_endpoint(e: AxisEndpoint, device: Seq<char>, axis: u8) -> bool {
    &&& e.device@ == device
    &&& e.baud == 115200
    &&& e.axis == axis
    &&& e.steps_per_rev_positive
}

fn odrive_endpoint(device: &str, axis: u8) -> (e: AxisEndpoint)
    ensures
        example_endpoint(e, device@, axis),
{
    AxisEndpoint { device: device.to_owned(), baud: 115200, axis, steps_per_rev_positive: true }
}

impl AxisMap {
    /// Validate non-empty, positive steps_per_rev and non-empty device names.
    pub fn validate(&self) -> (r: Result<(), RuntimeError>)
        ensures
            match validation_error(self.cables@) {
                None => r is Ok,
                Some(m) => r matches Err(RuntimeError::Config(s)) && s@ == m,
            },
    {
        if self.cables.len() == 0 {
            return Err(RuntimeError::Config(String::from_str("axis map empty")));
        }
        let mut i: usize = 0;
        while i < self.cables.len()
            invariant
                0 <= i <= self.cables.len(),
                self.cables.len() > 0,
                first_bad_cable(self.cables@, 0) == first_bad_cable(self.cables@, i as int),
            decreases self.cables.len() - i,
        {
            if !self.cables[i].steps_per_rev_positive {
                return Err(RuntimeError::Config(cable_message(i, " steps_per_rev must be > 0")));
            }
            if self.cables[i].device.as_str().unicode_len() == 0 {
                return Err(RuntimeError::Config(cable_message(i, " device empty")));
            }
            i = i + 1;
        }
        Ok(())
    }

    /// Example 4-cable map on two ODrives (2 axes each) over two serial ports
    /// at 115200 baud: cables 0 and 1 on `/dev/ttyACM0`, cables 2 and 3 on
    /// `/dev/ttyACM1`, axes 0 and 1 on each.
    pub fn example_dual_odrive() -> (m: Self)
        ensures
            m.cables@.len() == 4,
            example_endpoint(m.cables@[0], "/dev/ttyACM0"@, 0),
            example_endpoint(m.cables@[1], "/dev/ttyACM0"@, 1),
            example_endpoint(m.cables@[2], "/dev/ttyACM1"@, 0),
            example_endpoint(m.cables@[3], "/dev/ttyACM1"@, 1),
    {
        let mut cables: Vec<AxisEndpoint> = Vec::new();
        cables.push(odrive_endpoint("/dev/ttyACM0", 0));
        cables.push(odrive_endpoint("/dev/ttyACM0", 1));
        cables.push(odrive_endpoint("/dev/ttyACM1", 0));
        cables.push(odrive_endpoint("/dev/ttyACM1", 1));
        AxisMap { cables }
    }

    /// Group cables by device string (preserves first-seen order of devices).
    pub fn devices(&self) -> (r: Vec<String>)
        ensures
            r@.map_values(|s: String| s@) == map_devices(self.cables@),
    {
        let mut out: Vec<String> = Vec::new();
        let mut i: usize = 0;
        while i < self.cables.len()
            invariant
                0 <= i <= self.cables.len(),
                out@.map_values(|s: String| s@) == first_seen(
                    device_names(self.cables@).take(i as int),
                ),
            decreases self.cables.len() - i,
        {
            let ghost names = device_names(self.cables@);
            let ghost prev = out@.map_values(|s: String| s@);
            assert(names.take(i + 1).drop_last() =~= names.take(i as int));
            assert(names.take(i + 1).last() == self.cables@[i as int].device@);
            let mut found = false;
            let mut j: usize = 0;
            while j < out.len()
                invariant
                    0 <= j <= out.len(),
                    0 <= i < self.cables.len(),
                    prev == out@.map_values(|s: String| s@),
                    found == (exists|k: int| 0 <= k < j && prev[k] == self.cables@[i as int].device@),
                decreases out.len() - j,
            {
                assert(prev[j as int] == out@[j as int]@);
                if out[j] == self.cables[i].device {
                    found = true;
                }
                j = j + 1;
            }
            if !found {
                out.push(self.cables[i].device.clone());
                assert(out@.map_values(|s: String| s@) =~= prev.push(self.cables@[i as int].device@));
            } else {
                assert(prev.contains(self.cables@[i as int].device@));
            }
            i = i + 1;
        }
        assert(device_names(self.cables@).take(self.cables.len() as int) =~= device_names(
            self.cables@,
        ));
        out
    }
}

proof fn lemma_first_seen_props(s: Seq<Seq<char>>)
    ensures
        forall|i: int, j: int|
            0 <= i < j < first_seen(s).len() ==> first_seen(s)[i] != first_seen(s)[j],
        forall|k: int| 0 <= k < s.len() ==> first_seen(s).contains(#[trigger] s[k]),
    decreases s.len(),
{
    if s.len() > 0 {
        let p = s.drop_last();
        lemma_first_seen_props(p);
        assert forall|k: int| 0 <= k < s.len() implies first_seen(s).contains(#[trigger] s[k]) by {
            if k < s.len() - 1 {
                assert(p[k] == s[k]);
                let w = choose|w: int| 0 <= w < first_seen(p).len() && first_seen(p)[w] == s[k];
                assert(first_seen(s)[w] == s[k]);
            } else {
                if !first_seen(p).contains(s.last()) {
                    assert(first_seen(s)[first_seen(s).len() - 1] == s[k]);
                }
            }
        }
    }
}

proof fn lemma_position_of(s: Seq<Seq<char>>, x: Seq<char>)
    requires
        s.contains(x),
    ensures
        position_of(s, x) < s.len(),
        s[position_of(s, x) as int] == x,
    decreases s.len(),
{
    if s[0] != x {
        let w = choose|w: int| 0 <= w < s.len() && s[w] == x;
        assert(s.drop_first()[w - 1] == x);
        lemma_position_of(s.drop_first(), x);
    }
}

proof fn lemma_rank_monotone(cables: Seq<AxisEndpoint>, c1: int, c2: int, k: int)
    requires
        0 <= c1 < cables.len(),
        0 <= c2 < cables.len(),
        0 <= k <= cables.len(),
        routed_before(cables, c1, c2),
    ensures
        rank_among(cables, c2, k) >= rank_among(cables, c1, k) + if c1 < k {
            1int
        } else {
            0int
        },
    decreases k,
{
    if k > 0 {
        lemma_rank_monotone(cables, c1, c2, k - 1);
    }
}

proof fn lemma_rank_bound(cables: Seq<AxisEndpoint>, c: int, k: int)
    requires
        0 <= c < cables.len(),
        0 <= k <= cables.len(),
    ensures
        rank_among(cables, c, k) + if c < k {
            1int
        } else {
            0int
        } <= count_on(cables, cables[c].device@, k),
    decreases k,
{
    if k > 0 {
        lemma_rank_bound(cables, c, k - 1);
    }
}

/// Routing is one-to-one onto board slots: every cable lands on an existing
/// board, at a place below that board's cable count, and no two cables share
/// a board place.
pub proof fn lemma_routes_injective(cables: Seq<AxisEndpoint>)
    ensures
        forall|c: int|
            0 <= c < cables.len() ==> {
                let (b, l) = #[trigger] route_of(cables, c);
                &&& 0 <= b < map_devices(cables).len()
                &&& map_devices(cables)[b] == cables[c].device@
                &&& 0 <= l < board_size(cables, b)
            },
        forall|c1: int, c2: int|
            0 <= c1 < cables.len() && 0 <= c2 < cables.len() && c1 != c2 ==> #[trigger] route_of(
                cables,
                c1,
            ) != #[trigger] route_of(cables, c2),
{
    let devs = map_devices(cables);
    let n = cables.len() as int;
    lemma_first_seen_props(device_names(cables));
    assert forall|c: int| 0 <= c < n implies {
        let (b, l) = #[trigger] route_of(cables, c);
        &&& 0 <= b < devs.len()
        &&& devs[b] == cables[c].device@
        &&& 0 <= l < board_size(cables, b)
    } by {
        assert(device_names(cables)[c] == cables[c].device@);
        lemma_position_of(devs, cables[c].device@);
        lemma_rank_bound(cables, c, n);
    }
    assert forall|c1: int, c2: int|
        0 <= c1 < n && 0 <= c2 < n && c1 != c2 implies #[trigger] route_of(cables, c1)
        != #[trigger] route_of(cables, c2) by {
        assert(device_names(cables)[c1] == cables[c1].device@);
        assert(device_names(cables)[c2] == cables[c2].device@);
        lemma_position_of(devs, cables[c1].device@);
        lemma_position_of(devs, cables[c2].device@);
        if cables[c1].device@ == cables[c2].device@ {
            if routed_before(cables, c1, c2) {
                lemma_rank_monotone(cables, c1, c2, n);
            } else {
                assert(routed_before(cables, c2, c1));
                lemma_rank_monotone(cables, c2, c1, n);
            }
        }
    }
}

/// Route from a cable to its board and the axis slot on that board.
#[derive(Clone, Copy, Debug, PartialEq, Eq, Structural)]
pub struct CableRoute {
    /// Board index (position of the cable's device in first-seen order).
    pub board: usize,
    /// Slot on that board.
    pub local: usize,
}

proof fn lemma_position_found(s: Seq<Seq<char>>, x: Seq<char>, r: int)
    requires
        0 <= r <= s.len(),
        forall|j: int| 0 <= j < r ==> s[j] != x,
        r < s.len() ==> s[r] == x,
    ensures
        position_of(s, x) == r,
    decreases r,
{
    if r > 0 {
        lemma_position_found(s.drop_first(), x, r - 1);
    }
}

impl AxisMap {
    /// How many of the first `k` cables are routed before cable `c`.
    fn rank_of(&self, c: usize) -> (r: usize)
        requires
            c < self.cables.len(),
        ensures
            r == rank_among(self.cables@, c as int, self.cables.len() as int),
    {
        let mut cnt: usize = 0;
        let mut k: usize = 0;
        while k < self.cables.len()
            invariant
                0 <= k <= self.cables.len(),
                c < self.cables.len(),
                cnt == rank_among(self.cables@, c as int, k as int),
                cnt <= k,
            decreases self.cables.len() - k,
        {
            let a = &self.cables[k];
            let b = &self.cables[c];
            if a.device == b.device && (a.axis < b.axis || (a.axis == b.axis && k < c)) {
                cnt = cnt + 1;
            }
            k = k + 1;
        }
        cnt
    }

    /// The baud a board on `device` is opened at: that of the first cable on
    /// it, or 115200 when no cable is.
    pub fn device_baud(&self, device: &String) -> (r: u32)
        ensures
            ({
                let i = position_of(device_names(self.cables@), device@) as int;
                r == if i < self.cables@.len() {
                    self.cables@[i].baud
                } else {
                    115200u32
                }
            }),
    {
        let ghost names = device_names(self.cables@);
        assert(names.skip(0) =~= names);
        let mut k: usize = 0;
        while k < self.cables.len()
            invariant
                0 <= k <= self.cables.len(),
                names == device_names(self.cables@),
                position_of(names, device@) == k + position_of(names.skip(k as int), device@),
            decreases self.cables.len() - k,
        {
            assert(names.skip(k as int)[0] == self.cables@[k as int].device@);
            if self.cables[k].device == *device {
                return self.cables[k].baud;
            }
            assert(names.skip(k as int).drop_first() =~= names.skip(k + 1));
            k = k + 1;
        }
        115200
    }

    /// How many cables sit on `device`.
    pub fn count_on_device(&self, device: &String) -> (r: usize)
        ensures
            r == count_on(self.cables@, device@, self.cables.len() as int),
    {
        self.count_device(device)
    }

    fn count_device(&self, device: &String) -> (r: usize)
        ensures
            r == count_on(self.cables@, device@, self.cables.len() as int),
    {
        let mut cnt: usize = 0;
        let mut k: usize = 0;
        while k < self.cables.len()
            invariant
                0 <= k <= self.cables.len(),
                cnt == count_on(self.cables@, device@, k as int),
                cnt <= k,
            decreases self.cables.len() - k,
        {
            if self.cables[k].device == *device {
                cnt = cnt + 1;
            }
            k = k + 1;
        }
        cnt
    }

    /// The route of every cable, given the map's devices.
    pub fn routes(&self, devices: &Vec<String>) -> (r: Vec<CableRoute>)
        requires
            devices@.map_values(|s: String| s@) == map_devices(self.cables@),
        ensures
            r@.len() == self.cables@.len(),
            forall|c: int|
                0 <= c < r@.len() ==> (#[trigger] r@[c].board as int, r@[c].local as int)
                    == route_of(self.cables@, c),
    {
        let ghost devs = map_devices(self.cables@);
        proof {
            lemma_first_seen_props(device_names(self.cables@));
        }
        let mut out: Vec<CableRoute> = Vec::new();
        let mut c: usize = 0;
        while c < self.cables.len()
            invariant
                0 <= c <= self.cables.len(),
                devices@.map_values(|s: String| s@) == devs,
                devs == map_devices(self.cables@),
                forall|k: int| 0 <= k < self.cables@.len() ==> devs.contains(#[trigger] device_names(self.cables@)[k]),
                out@.len() == c,
                forall|k: int|
                    0 <= k < c ==> (#[trigger] out@[k].board as int, out@[k].local as int)
                        == route_of(self.cables@, k),
            decreases self.cables.len() - c,
        {
            let mut b: usize = 0;
            while b < devices.len() && devices[b] != self.cables[c].device
                invariant
                    0 <= b <= devices.len(),
                    c < self.cables.len(),
                    devices@.map_values(|s: String| s@) == devs,
                    forall|j: int| 0 <= j < b ==> devs[j] != self.cables@[c as int].device@,
                decreases devices.len() - b,
            {
                assert(devs[b as int] == devices@[b as int]@);
                b = b + 1;
            }
            proof {
                if b < devices.len() {
                    assert(devs[b as int] == devices@[b as int]@);
                }
                lemma_position_found(devs, self.cables@[c as int].device@, b as int);
            }
            let l = self.rank_of(c);
            out.push(CableRoute { board: b, local: l });
            c = c + 1;
        }
        out
    }

    /// The number of cables on each device, in the order given.
    pub fn board_sizes(&self, devices: &Vec<String>) -> (r: Vec<usize>)
        requires
            devices@.map_values(|s: String| s@) == map_devices(self.cables@),
        ensures
            r@.len() == devices@.len(),
            forall|b: int| 0 <= b < r@.len() ==> #[trigger] r@[b] as int == board_size(self.cables@, b),
    {
        let mut out: Vec<usize> = Vec::new();
        let mut b: usize = 0;
        while b < devices.len()
            invariant
                0 <= b <= devices.len(),
                devices@.map_values(|s: String| s@) == map_devices(self.cables@),
                out@.len() == b,
                forall|k: int| 0 <= k < b ==> #[trigger] out@[k] as int == board_size(self.cables@, k),
            decreases devices.len() - b,
        {
            assert(map_devices(self.cables@)[b as int] == devices@[b as int]@);
            let n = self.count_device(&devices[b]);
            out.push(n);
            b = b + 1;
        }
        out
    }
}


proof fn lemma_first_seen_from(s: Seq<Seq<char>>)
    ensures
        forall|i: int| 0 <= i < first_seen(s).len() ==> s.contains(#[trigger] first_seen(s)[i]),
    decreases s.len(),
{
    if s.len() > 0 {
        let p = s.drop_last();
        lemma_first_seen_from(p);
        assert forall|i: int| 0 <= i < first_seen(s).len() implies s.contains(#[trigger] first_seen(s)[i]) by {
            if i < first_seen(p).len() {
                assert(first_seen(s)[i] == first_seen(p)[i]);
                let w = choose|w: int| 0 <= w < p.len() && p[w] == first_seen(p)[i];
                assert(s[w] == p[w]);
            } else {
                assert(first_seen(s)[i] == s[s.len() - 1]);
            }
        }
    }
}

/// Grouping cables by device: every device is listed once, every cable's
/// device is listed, and only the cables' devices are.
pub proof fn lemma_devices_group_cables(cables: Seq<AxisEndpoint>)
    ensures
        forall|i: int, j: int|
            0 <= i < j < map_devices(cables).len() ==> map_devices(cables)[i] != map_devices(cables)[j],
        forall|c: int| 0 <= c < cables.len() ==> map_devices(cables).contains(#[trigger] cables[c].device@),
        forall|i: int|
            0 <= i < map_devices(cables).len() ==> exists|c: int|
                0 <= c < cables.len() && #[trigger] cables[c].device@ == #[trigger] map_devices(cables)[i],
{
    let names = device_names(cables);
    lemma_first_seen_props(names);
    lemma_first_seen_from(names);
    assert forall|c: int| 0 <= c < cables.len() implies map_devices(cables).contains(#[trigger] cables[c].device@) by {
        assert(names[c] == cables[c].device@);
    }
    assert forall|i: int| 0 <= i < map_devices(cables).len() implies exists|c: int|
        0 <= c < cables.len() && #[trigger] cables[c].device@ == #[trigger] map_devices(cables)[i] by {
        let w = choose|w: int| 0 <= w < names.len() && names[w] == map_devices(cables)[i];
        assert(names[w] == cables[w].device@);
    }
}

} // verus!
