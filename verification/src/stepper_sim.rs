//! In-memory simulator of the stepper firmware line protocol.
//!
//! Commands (one per line, surrounding whitespace ignored):
//! `H` zeroes every counter, `E` acknowledges an e-stop, `P` reports the
//! counters, `M <n> <s0> <d0> <s1> <d1> ...` adds `s_i` to counter `i`.

use vstd::prelude::*;

use crate::text::{
    chars_of, parse_i64_range, parse_i64_spec, parse_unsigned, parse_unsigned_range, push_signed_decimal,
    push_str, range_eq_str, lemma_parse_unsigned_bound, signed_decimal, split_words, string_of, trim, trim_bounds, words,
    CharClass,
};

verus! {

/// In-memory stepper simulator state.
#[derive(Clone, Debug, Default)]
pub struct SimState {
    /// Cumulative step positions per axis.
    pub positions: Vec<i64>,
}

/// The `P` report: `P` followed by ` <count>` for every counter.
pub open spec fn position_report(pos: Seq<i64>) -> Seq<char>
    decreases pos.len(),
{
    if pos.len() == 0 {
        "P"@
    } else {
        position_report(pos.drop_last()) + seq![' '] + signed_decimal(pos.last() as int)
    }
}

/// The value of a step field: its `i64` reading, or 0 when it does not read as one.
pub open spec fn step_value(word: Seq<char>) -> i64 {
    match parse_i64_spec(word) {
        Some(v) => v,
        None => 0,
    }
}

/// The axis count of an `M` command: its `usize` reading, or 0 when it does not read as one.
pub open spec fn move_count(word: Seq<char>) -> int {
    match parse_unsigned(word, usize::MAX as int) {
        Ok(v) => v,
        Err(_) => 0,
    }
}

/// Counters after an `M` command whose fields are `parts` and axis count `n`:
/// counter `i < n` advances (wrapping) by the step field `parts[1 + 2i]`.
pub open spec fn moved_positions(pos: Seq<i64>, parts: Seq<Seq<char>>, n: int) -> Seq<i64> {
    Seq::new(
        pos.len(),
        |i: int|
            if i < n {
                pos[i].wrapping_add(step_value(parts[1 + 2 * i]))
            } else {
                pos[i]
            },
    )
}

/// Effect of the `M` command with argument text `rest`: new counters and reply.
pub open spec fn move_effect(pos: Seq<i64>, rest: Seq<char>) -> (Seq<i64>, Seq<char>) {
    let parts = words(rest);
    if parts.len() == 0 {
        (pos, "ERR bad"@)
    } else {
        let n = move_count(parts[0]);
        if n == 0 || parts.len() < 1 + 2 * n {
            (pos, "ERR parse"@)
        } else {
            (moved_positions(pos, parts, n), "OK"@)
        }
    }
}

/// One protocol line: the counters after it and the reply (empty for a blank line).
pub open spec fn sim_effect(pos: Seq<i64>, line: Seq<char>) -> (Seq<i64>, Seq<char>) {
    sim_effect_in(pos, line, true)
}

/// One protocol line, for a simulator that knows the `E` (e-stop) command
/// or not (the standalone TCP simulator does not, and answers it as unknown).
pub open spec fn sim_effect_in(pos: Seq<i64>, line: Seq<char>, knows_estop: bool) -> (Seq<i64>, Seq<char>) {
    let cmd = trim(line, CharClass::Whitespace);
    if cmd.len() == 0 {
        (pos, seq![])
    } else if cmd == "H"@ {
        (Seq::new(pos.len(), |i: int| 0i64), "OK"@)
    } else if knows_estop && cmd == "E"@ {
        (pos, "OK estop"@)
    } else if cmd == "P"@ {
        (pos, position_report(pos))
    } else if cmd[0] == 'M' {
        move_effect(pos, cmd.drop_first())
    } else {
        (pos, "ERR unknown"@)
    }
}

impl SimState {
    /// Create with `n` axes.
    pub fn new(n: usize) -> (s: Self)
        ensures
            s.positions@ == Seq::new(n as nat, |i: int| 0i64),
    {
        let mut positions: Vec<i64> = Vec::new();
        let mut i: usize = 0;
        while i < n
            invariant
                0 <= i <= n,
                positions@ == Seq::new(i as nat, |k: int| 0i64),
            decreases n - i,
        {
            positions.push(0);
            assert(positions@ =~= Seq::new((i + 1) as nat, |k: int| 0i64));
            i = i + 1;
        }
        SimState { positions }
    }

    fn report(&self) -> (r: Vec<char>)
        ensures
            r@ == position_report(self.positions@),
    {
        let mut out: Vec<char> = Vec::new();
        out.push('P');
        assert(out@ =~= "P"@) by {
            reveal_strlit("P");
        }
        let mut i: usize = 0;
        while i < self.positions.len()
            invariant
                0 <= i <= self.positions.len(),
                out@ == position_report(self.positions@.take(i as int)),
            decreases self.positions.len() - i,
        {
            let ghost before = out@;
            out.push(' ');
            push_signed_decimal(&mut out, self.positions[i]);
            assert(self.positions@.take(i + 1).drop_last() =~= self.positions@.take(i as int));
            assert(out@ =~= before + seq![' '] + signed_decimal(self.positions@[i as int] as int));
            i = i + 1;
        }
        assert(self.positions@.take(self.positions.len() as int) =~= self.positions@);
        out
    }

    fn apply_move(&mut self, v: &Vec<char>, lo: usize, hi: usize) -> (r: Vec<char>)
        requires
            lo <= hi <= v.len(),
        ensures
            (final(self).positions@, r@) == move_effect(
                old(self).positions@,
                v@.subrange(lo as int, hi as int),
            ),
    {
        let parts = split_words(v, lo, hi);
        let ghost pv = parts@.map_values(|w: Vec<char>| w@);
        assert(pv == words(v@.subrange(lo as int, hi as int)));
        if parts.len() == 0 {
            let mut r = Vec::new();
            push_str(&mut r, "ERR bad");
            return r;
        }
        assert(pv[0] == parts@[0]@);
        proof {
            lemma_parse_unsigned_bound(parts@[0]@, usize::MAX as int);
        }
        let n: usize = match parse_unsigned_range(&parts[0], 0, parts[0].len(), usize::MAX as u64) {
            Ok(x) => x as usize,
            Err(_) => 0,
        };
        assert(parts@[0]@.subrange(0, parts@[0]@.len() as int) =~= parts@[0]@);
        assert(n == move_count(pv[0]));
        if n == 0 || n > (parts.len() - 1) / 2 {
            let mut r = Vec::new();
            push_str(&mut r, "ERR parse");
            return r;
        }
        let ghost old_pos = self.positions@;
        let mut i: usize = 0;
        while i < n
            invariant
                0 <= i <= n,
                1 + 2 * n <= parts.len(),
                pv == parts@.map_values(|w: Vec<char>| w@),
                self.positions@.len() == old_pos.len(),
                forall|k: int|
                    0 <= k < old_pos.len() ==> #[trigger] self.positions@[k] == if k < i {
                        old_pos[k].wrapping_add(step_value(pv[1 + 2 * k]))
                    } else {
                        old_pos[k]
                    },
            decreases n - i,
        {
            let w = &parts[1 + 2 * i];
            let s: i64 = match parse_i64_range(w, 0, w.len()) {
                Some(x) => x,
                None => 0,
            };
            assert(w@.subrange(0, w@.len() as int) =~= w@);
            assert(pv[1 + 2 * i] == w@);
            if i < self.positions.len() {
                let cur = self.positions[i];
                self.positions.set(i, cur.wrapping_add(s));
            }
            i = i + 1;
        }
        assert(self.positions@ =~= moved_positions(old_pos, pv, n as int));
        let mut r = Vec::new();
        push_str(&mut r, "OK");
        r
    }

    /// Handle one protocol line; returns response line without trailing newline.
    pub fn handle_line(&mut self, cmd: &str) -> (r: String)
        ensures
            (final(self).positions@, r@) == sim_effect(old(self).positions@, cmd@),
    {
        self.handle_command(cmd, true)
    }

    /// One protocol line, with or without the `E` command ([`sim_effect_in`]).
    fn handle_command(&mut self, cmd: &str, knows_estop: bool) -> (r: String)
        ensures
            (final(self).positions@, r@) == sim_effect_in(old(self).positions@, cmd@, knows_estop),
    {
        let v = chars_of(cmd);
        let (lo, hi) = trim_bounds(&v, 0, v.len(), CharClass::Whitespace);
        assert(v@.subrange(0, v@.len() as int) =~= v@);
        let ghost c = v@.subrange(lo as int, hi as int);
        if lo == hi {
            return String::new();
        }
        if range_eq_str(&v, lo, hi, "H") {
            let mut i: usize = 0;
            let ghost n = self.positions.len();
            while i < self.positions.len()
                invariant
                    0 <= i <= self.positions.len(),
                    self.positions.len() == n,
                    forall|k: int| 0 <= k < i ==> self.positions@[k] == 0i64,
                decreases self.positions.len() - i,
            {
                self.positions.set(i, 0);
                i = i + 1;
            }
            assert(self.positions@ =~= Seq::new(n as nat, |k: int| 0i64));
            return String::from_str("OK");
        }
        if knows_estop && range_eq_str(&v, lo, hi, "E") {
            return String::from_str("OK estop");
        }
        if range_eq_str(&v, lo, hi, "P") {
            let r = self.report();
            return string_of(&r);
        }
        if v[lo] == 'M' {
            assert(c.drop_first() =~= v@.subrange(lo + 1, hi as int));
            let r = self.apply_move(&v, lo + 1, hi);
            return string_of(&r);
        }
        String::from_str("ERR unknown")
    }
}

impl SimState {
    /// The line a simulator server sends first on every connection.
    pub fn greeting() -> (g: String)
        ensures
            g@ == "OK spyder-stepper-sim"@,
    {
        "OK spyder-stepper-sim".to_owned()
    }

    /// One line received on a connection ([`sim_effect`]): the reply to send
    /// back as a line, or `None` when the reply is empty and nothing is sent.
    pub fn respond(&mut self, line: &str) -> (r: Option<String>)
        ensures
            final(self).positions@ == sim_effect(old(self).positions@, line@).0,
            match r {
                None => sim_effect(old(self).positions@, line@).1.len() == 0,
                Some(t) => sim_effect(old(self).positions@, line@).1.len() > 0 && t@ == sim_effect(
                    old(self).positions@,
                    line@,
                ).1,
            },
    {
        let reply = self.handle_line(line);
        if reply.as_str().unicode_len() == 0 {
            None
        } else {
            Some(reply)
        }
    }

    /// One line received by the standalone TCP simulator, which has no `E`
    /// command ([`sim_effect_in`] without it): the reply to send back as a
    /// line, or `None` when the line is blank.
    pub fn respond_without_estop(&mut self, line: &str) -> (r: Option<String>)
        ensures
            final(self).positions@ == sim_effect_in(old(self).positions@, line@, false).0,
            match r {
                None => sim_effect_in(old(self).positions@, line@, false).1.len() == 0,
                Some(t) => sim_effect_in(old(self).positions@, line@, false).1.len() > 0 && t@
                    == sim_effect_in(old(self).positions@, line@, false).1,
            },
    {
        let reply = self.handle_command(line, false);
        if reply.as_str().unicode_len() == 0 {
            None
        } else {
            Some(reply)
        }
    }
}

} // verus!
