//! Command-line and connection helpers: flag extraction, the transport a
//! device string asks for, and the calibration timestamp label.

use vstd::prelude::*;

use crate::text::{chars_of, decimal, find_char, opt_chars, push_decimal, push_str, string_of, texts, vec_eq_str, vec_starts_with};

verus! {

/// Index of the first element of `s` equal to `x` (`s.len()` if none).
pub open spec fn first_index(s: Seq<Seq<char>>, x: Seq<char>) -> nat
    decreases s.len(),
{
    if s.len() == 0 {
        0
    } else if s[0] == x {
        0
    } else {
        1 + first_index(s.drop_first(), x)
    }
}

proof fn lemma_first_index(s: Seq<Seq<char>>, x: Seq<char>, r: int)
    requires
        0 <= r <= s.len(),
        forall|j: int| 0 <= j < r ==> s[j] != x,
        r < s.len() ==> s[r] == x,
    ensures
        first_index(s, x) == r,
    decreases r,
{
    if r > 0 {
        lemma_first_index(s.drop_first(), x, r - 1);
    }
}

/// Removing flag `name` and the value after it from `args`: the remaining
/// arguments and the value. Only the first occurrence counts; a flag that is
/// last is removed and gives no value.
pub open spec fn take_flag_spec(args: Seq<Seq<char>>, name: Seq<char>) -> (
    Seq<Seq<char>>,
    Option<Seq<char>>,
) {
    let i = first_index(args, name) as int;
    if i >= args.len() {
        (args, None)
    } else {
        let rest = args.remove(i);
        if i < rest.len() {
            (rest.remove(i), Some(rest[i]))
        } else {
            (rest, None)
        }
    }
}

/// Whether two strings hold the same characters.
fn str_eq(a: &str, b: &str) -> (r: bool)
    ensures
        r == (a@ == b@),
{
    let v = chars_of(a);
    vec_eq_str(&v, b)
}

/// Removes `name` and the value that follows it from `args`, returning the
/// value ([`take_flag_spec`]).
pub fn take_flag(args: &mut Vec<String>, name: &str) -> (r: Option<String>)
    ensures
        (texts(final(args)@), opt_chars(r)) == take_flag_spec(texts(old(args)@), name@),
{
    let ghost a0 = texts(args@);
    let mut i: usize = 0;
    while i < args.len() && !str_eq(args[i].as_str(), name)
        invariant
            0 <= i <= args.len(),
            a0 == texts(args@),
            forall|j: int| 0 <= j < i ==> a0[j] != name@,
        decreases args.len() - i,
    {
        i = i + 1;
    }
    proof {
        lemma_first_index(a0, name@, i as int);
    }
    if i == args.len() {
        return None;
    }
    args.remove(i);
    let ghost a1 = a0.remove(i as int);
    assert(texts(args@) =~= a1);
    if i < args.len() {
        let v = args.remove(i);
        assert(texts(args@) =~= a1.remove(i as int));
        Some(v)
    } else {
        None
    }
}

/// The transport a device string asks for.
#[derive(Clone, Copy, Debug, PartialEq, Eq, Structural)]
pub enum TransportKind {
    /// The in-memory mock.
    Mock,
    /// A TCP connection to `host:port`.
    Tcp,
    /// A serial port.
    Serial,
}

/// `mock` in any mix of ASCII letter cases.
pub open spec fn is_mock_name(s: Seq<char>) -> bool {
    &&& s.len() == 4
    &&& (s[0] == 'm' || s[0] == 'M')
    &&& (s[1] == 'o' || s[1] == 'O')
    &&& (s[2] == 'c' || s[2] == 'C')
    &&& (s[3] == 'k' || s[3] == 'K')
}

/// A `host:port` address: it holds a `:`, and neither starts with `/` (a
/// device path) nor with `COM` (a Windows serial port).
pub open spec fn is_network_address(s: Seq<char>) -> bool {
    &&& s.contains(':')
    &&& !(s.len() > 0 && s[0] == '/')
    &&& !("COM"@.len() <= s.len() && s.take("COM"@.len() as int) == "COM"@)
}

/// The transport for `device`: the mock where it is accepted and named,
/// TCP for a network address, else a serial port.
pub open spec fn transport_kind_spec(device: Seq<char>, accept_mock: bool) -> TransportKind {
    if accept_mock && is_mock_name(device) {
        TransportKind::Mock
    } else if is_network_address(device) {
        TransportKind::Tcp
    } else {
        TransportKind::Serial
    }
}

/// Decides which transport `device` asks for ([`transport_kind_spec`]); the
/// GUI service accepts `mock`, the command line does not.
pub fn transport_kind(device: &str, accept_mock: bool) -> (k: TransportKind)
    ensures
        k == transport_kind_spec(device@, accept_mock),
{
    let v = chars_of(device);
    let n = v.len();
    if accept_mock && n == 4 && (v[0] == 'm' || v[0] == 'M') && (v[1] == 'o' || v[1] == 'O') && (
    v[2] == 'c' || v[2] == 'C') && (v[3] == 'k' || v[3] == 'K') {
        return TransportKind::Mock;
    }
    let colon = find_char(&v, 0, n, ':');
    proof {
        if colon < n {
            assert(v@[colon as int] == ':');
        } else {
            assert forall|j: int| 0 <= j < v@.len() implies v@[j] != ':' by {}
        }
    }
    let has_colon = colon < n;
    let slash = n > 0 && v[0] == '/';
    let com = vec_starts_with(&v, "COM");
    if has_colon && !slash && !com {
        TransportKind::Tcp
    } else {
        TransportKind::Serial
    }
}

/// The label of a calibration taken `secs` seconds after the Unix epoch.
pub fn unix_timestamp_label(secs: u64) -> (s: String)
    ensures
        s@ == "unix:"@ + decimal(secs as nat),
{
    let mut v: Vec<char> = Vec::new();
    push_str(&mut v, "unix:");
    push_decimal(&mut v, secs);
    string_of(&v)
}


/// How a device string picks its transport: the mock only where it is
/// accepted, and then for `mock` in any letter case; a device path (leading
/// `/`) or a Windows port (leading `COM`) is always a serial port; anything
/// else with a `:` is a TCP `host:port`; without a `:` it is never TCP.
pub proof fn lemma_transport_choice(device: Seq<char>, accept_mock: bool)
    ensures
        !accept_mock ==> transport_kind_spec(device, accept_mock) != TransportKind::Mock,
        accept_mock && device == "mock"@ ==> transport_kind_spec(device, accept_mock) == TransportKind::Mock,
        accept_mock && device == "MOCK"@ ==> transport_kind_spec(device, accept_mock) == TransportKind::Mock,
        device.len() > 0 && device[0] == '/' ==> transport_kind_spec(device, accept_mock) == TransportKind::Serial,
        device.len() >= 3 && device[0] == 'C' && device[1] == 'O' && device[2] == 'M' ==> transport_kind_spec(
            device,
            accept_mock,
        ) == TransportKind::Serial,
        !device.contains(':') ==> transport_kind_spec(device, accept_mock) != TransportKind::Tcp,
        device.contains(':') && !(device[0] == '/') && !(device.len() >= 3 && device[0] == 'C' && device[1] == 'O'
            && device[2] == 'M') ==> transport_kind_spec(device, accept_mock) == TransportKind::Tcp,
{
    reveal_strlit("mock");
    reveal_strlit("MOCK");
    reveal_strlit("COM");
    if device.len() >= 3 && device[0] == 'C' && device[1] == 'O' && device[2] == 'M' {
        assert(device.take(3) =~= "COM"@);
    }
    if device.len() >= 3 && device.take(3) == "COM"@ {
        assert(device.take(3)[0] == device[0] && device.take(3)[1] == device[1] && device.take(3)[2] == device[2]);
    }
    if device.contains(':') {
        let j = choose|j: int| 0 <= j < device.len() && device[j] == ':';
        if is_mock_name(device) {
            assert(device[j] != ':');
        }
    }
}

} // verus!
