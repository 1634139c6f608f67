//! Multi-axis stepper backend over the spyder line protocol.
//!
//! Host → firmware: `M <n> <s0> <d0_us> <s1> <d1_us> ...\n`; the firmware
//! replies `OK` (or `ERR ...`). `H\n` asks the firmware to zero its counters.

use vstd::prelude::*;

use crate::backend::{advanced, zero_vec, zeros, MotorBackend};
use crate::errors::RuntimeError;
use crate::text::{decimal, push_chars, push_decimal, push_signed_decimal, push_str, signed_decimal, string_of};
use crate::transport::Transport;
use vstd::utf8::encode_utf8;

verus! {

/// Step period sent for an axis: a moving axis never gets a zero period, it gets 200 µs.
pub open spec fn sent_delay(step: i64, delay_us: u64) -> u64 {
    if step != 0 && delay_us == 0 {
        200
    } else {
        delay_us
    }
}

/// The fields ` <s_i> <d_i>` of the first `k` axes.
pub open spec fn move_fields(steps: Seq<i64>, delays_us: Seq<u64>, k: int) -> Seq<char>
    decreases k,
{
    if k <= 0 {
        seq![]
    } else {
        move_fields(steps, delays_us, k - 1) + seq![' '] + signed_decimal(steps[k - 1] as int)
            + seq![' '] + decimal(sent_delay(steps[k - 1], delays_us[k - 1]) as nat)
    }
}

/// The move command line (without its newline).
pub open spec fn move_command_text(steps: Seq<i64>, delays_us: Seq<u64>) -> Seq<char> {
    "M "@ + decimal(steps.len()) + move_fields(steps, delays_us, steps.len() as int)
}

/// `line` terminated by exactly the newline it lacks.
pub open spec fn with_newline(line: Seq<char>) -> Seq<char> {
    if line.len() > 0 && line.last() == '\n' {
        line
    } else {
        line.push('\n')
    }
}

/// The move command line for the given steps and step periods (µs).
pub fn move_command(steps: &[i64], delays_us: &[u64]) -> (r: String)
    requires
        steps@.len() == delays_us@.len(),
    ensures
        r@ == move_command_text(steps@, delays_us@),
{
    let n = steps.len();
    let mut out: Vec<char> = Vec::new();
    push_str(&mut out, "M ");
    push_decimal(&mut out, n as u64);
    let ghost head = out@;
    let mut i: usize = 0;
    while i < n
        invariant
            0 <= i <= n,
            n == steps@.len() == delays_us@.len(),
            out@ == head + move_fields(steps@, delays_us@, i as int),
        decreases n - i,
    {
        let d = if steps[i] != 0 && delays_us[i] == 0 {
            200u64
        } else {
            delays_us[i]
        };
        out.push(' ');
        push_signed_decimal(&mut out, steps[i]);
        out.push(' ');
        push_decimal(&mut out, d);
        assert(out@ =~= head + move_fields(steps@, delays_us@, i + 1));
        i = i + 1;
    }
    string_of(&out)
}

/// Outcome of a firmware reply: accepted exactly when it starts with `OK`.
pub open spec fn ack_outcome(resp: Seq<char>) -> Result<(), Seq<char>> {
    if resp.len() >= 2 && resp.take(2) == "OK"@ {
        Ok(())
    } else {
        Err("stepper firmware: "@ + resp)
    }
}

/// Judges a firmware reply: `Ok` when it starts with `OK`, else a backend error
/// carrying the reply.
pub fn firmware_ack(resp: &str) -> (r: Result<(), RuntimeError>)
    ensures
        match ack_outcome(resp@) {
            Ok(_) => r is Ok,
            Err(m) => r matches Err(RuntimeError::Backend(s)) && s@ == m,
        },
{
    let v = crate::text::chars_of(resp);
    if crate::text::vec_starts_with(&v, "OK") {
        proof {
            reveal_strlit("OK");
        }
        Ok(())
    } else {
        proof {
            reveal_strlit("OK");
        }
        let mut m: Vec<char> = Vec::new();
        push_str(&mut m, "stepper firmware: ");
        push_chars(&mut m, &v);
        Err(RuntimeError::Backend(string_of(&m)))
    }
}

/// One call the stepper backend made on its transport: a write of the given
/// bytes and what it returned, or a line read and what it returned.
pub ghost enum LinkCall {
    Write(Seq<u8>, Result<(), RuntimeError>),
    Read(Result<Seq<char>, RuntimeError>),
}

/// A read's result, with the line as its characters.
pub open spec fn read_view(r: Result<String, RuntimeError>) -> Result<Seq<char>, RuntimeError> {
    match r {
        Ok(s) => Ok(s@),
        Err(e) => Err(e),
    }
}

/// The bytes of a command line: its UTF-8 encoding, newline included.
pub open spec fn line_bytes(line: Seq<char>) -> Seq<u8> {
    encode_utf8(line.push('\n'))
}

/// The result of waiting for the firmware's answer after a successful write:
/// with no wait, `Ok` and no read; else one read, whose error is returned,
/// or whose reply is judged by [`ack_outcome`].
pub open spec fn ack_calls(awaits: bool, calls: Seq<LinkCall>, r: Result<(), RuntimeError>) -> bool {
    if !awaits {
        calls.len() == 0 && r is Ok
    } else {
        &&& calls.len() == 1
        &&& match calls[0] {
            LinkCall::Read(Err(e)) => r == Err::<(), RuntimeError>(e),
            LinkCall::Read(Ok(reply)) => match ack_outcome(reply) {
                Ok(_) => r is Ok,
                Err(m) => r matches Err(RuntimeError::Backend(t)) && t@ == m,
            },
            LinkCall::Write(_, _) => false,
        }
    }
}

/// The calls one command makes on the transport and its result: one write
/// of the command's `bytes`; if that write fails, its error and nothing
/// more; else the wait for the answer as [`ack_calls`] says.
pub open spec fn command_calls(awaits: bool, calls: Seq<LinkCall>, bytes: Seq<u8>, r: Result<(), RuntimeError>) -> bool {
    &&& calls.len() >= 1
    &&& match calls[0] {
        LinkCall::Write(b, Err(e)) => b == bytes && calls.len() == 1 && r == Err::<(), RuntimeError>(e),
        LinkCall::Write(b, Ok(_)) => b == bytes && ack_calls(awaits, calls.drop_first(), r),
        LinkCall::Read(_) => false,
    }
}

/// `after` is `before` followed by the calls of one command, as
/// [`command_calls`] says.
pub open spec fn command_exchange(
    awaits: bool,
    before: Seq<LinkCall>,
    after: Seq<LinkCall>,
    bytes: Seq<u8>,
    r: Result<(), RuntimeError>,
) -> bool {
    &&& before.len() <= after.len()
    &&& after.take(before.len() as int) == before
    &&& command_calls(awaits, after.skip(before.len() as int), bytes, r)
}

/// Stepper backend speaking the spyder multi-axis protocol.
pub struct StepperBackend {
    transport: Box<dyn Transport>,
    steps: Vec<i64>,
    expect_ack: bool,
    link: Ghost<Seq<LinkCall>>,
}

impl StepperBackend {
    /// Every call made on the transport since the backend was built, in
    /// order, with what each returned.
    pub closed spec fn link_calls(&self) -> Seq<LinkCall> {
        self.link@
    }

    /// Whether each command waits for the firmware's `OK`.
    pub closed spec fn awaits_ack(&self) -> bool {
        self.expect_ack
    }

    /// Wrap a transport for `n` axes. Nothing is sent or read.
    pub fn new(transport: Box<dyn Transport>, n: usize) -> (b: Self)
        ensures
            b.counters() == zeros(n as nat),
            b.awaits_ack(),
            b.link_calls().len() == 0,
    {
        StepperBackend { transport, steps: zero_vec(n), expect_ack: true, link: Ghost(Seq::empty()) }
    }

    /// Disable waiting for `OK`.
    pub fn without_ack(self) -> (b: Self)
        ensures
            !b.awaits_ack(),
            b.counters() == self.counters(),
            b.link_calls() == self.link_calls(),
    {
        let mut s = self;
        s.expect_ack = false;
        s
    }

    fn send_line(&mut self, line: &str) -> (r: Result<(), RuntimeError>)
        ensures
            final(self).link_calls() == old(self).link_calls().push(
                LinkCall::Write(encode_utf8(with_newline(line@)), r),
            ),
            final(self).counters() == old(self).counters(),
            final(self).awaits_ack() == old(self).awaits_ack(),
    {
        let mut msg = crate::text::chars_of(line);
        let n = msg.len();
        if n == 0 || msg[n - 1] != '\n' {
            msg.push('\n');
        }
        let text = string_of(&msg);
        assert(text@ == with_newline(line@));
        let bytes = text.as_str().as_bytes();
        let r = self.transport.write_all(bytes);
        self.link = Ghost(self.link@.push(LinkCall::Write(bytes@, r)));
        r
    }

    fn expect_ok(&mut self) -> (r: Result<(), RuntimeError>)
        ensures
            final(self).counters() == old(self).counters(),
            final(self).awaits_ack() == old(self).awaits_ack(),
            old(self).link_calls().len() <= final(self).link_calls().len(),
            final(self).link_calls().take(old(self).link_calls().len() as int) == old(self).link_calls(),
            ack_calls(
                old(self).awaits_ack(),
                final(self).link_calls().skip(old(self).link_calls().len() as int),
                r,
            ),
    {
        if !self.expect_ack {
            assert(self.link@.skip(self.link@.len() as int) =~= Seq::<LinkCall>::empty());
            assert(self.link@.take(self.link@.len() as int) =~= self.link@);
            return Ok(());
        }
        let res = self.transport.read_line();
        let ghost before = self.link@;
        self.link = Ghost(self.link@.push(LinkCall::Read(read_view(res))));
        assert(self.link@.skip(before.len() as int) =~= seq![LinkCall::Read(read_view(res))]);
        assert(self.link@.take(before.len() as int) =~= before);
        match res {
            Ok(resp) => firmware_ack(resp.as_str()),
            Err(e) => Err(e),
        }
    }

    /// Sends `line` and waits for the firmware's answer, as one command.
    fn command(&mut self, line: &str) -> (r: Result<(), RuntimeError>)
        ensures
            command_exchange(
                old(self).awaits_ack(),
                old(self).link_calls(),
                final(self).link_calls(),
                encode_utf8(with_newline(line@)),
                r,
            ),
            final(self).counters() == old(self).counters(),
            final(self).awaits_ack() == old(self).awaits_ack(),
    {
        let ghost before = self.link@;
        let sent = self.send_line(line);
        let ghost mid = self.link@;
        if sent.is_err() {
            assert(self.link@.skip(before.len() as int) =~= seq![mid.last()]);
            assert(self.link@.take(before.len() as int) =~= before);
            return sent;
        }
        let ack = self.expect_ok();
        proof {
            let all = self.link@;
            assert(all.take(mid.len() as int) == mid);
            assert(all.take(before.len() as int) =~= before) by {
                assert(mid.take(before.len() as int) =~= before);
                assert forall|i: int| 0 <= i < before.len() implies all[i] == before[i] by {
                    assert(all.take(mid.len() as int)[i] == all[i]);
                    assert(mid[i] == before[i]);
                }
            }
            let calls = all.skip(before.len() as int);
            assert(calls[0] == mid.last()) by {
                assert(all.take(mid.len() as int)[before.len() as int] == all[before.len() as int]);
            }
            assert(calls.drop_first() =~= all.skip(mid.len() as int));
        }
        ack
    }

    /// Ask firmware to zero its counters: `H`, then (when awaited) the
    /// firmware's `OK`; the counters are zeroed on success.
    pub fn home(&mut self) -> (r: Result<(), RuntimeError>)
        ensures
            command_exchange(old(self).awaits_ack(), old(self).link_calls(), final(self).link_calls(), line_bytes("H"@), r),
            r is Ok ==> final(self).counters() == zeros(old(self).counters().len()),
            r is Err ==> final(self).counters() == old(self).counters(),
            final(self).awaits_ack() == old(self).awaits_ack(),
    {
        proof {
            reveal_strlit("H");
            assert(with_newline("H"@) =~= "H"@.push('\n'));
        }
        let r = self.command("H");
        if r.is_err() {
            return r;
        }
        let n = self.steps.len();
        self.steps = zero_vec(n);
        r
    }
}

impl MotorBackend for StepperBackend {
    closed spec fn counters(&self) -> Seq<i64> {
        self.steps@
    }

    fn axis_count(&self) -> (n: usize) {
        self.steps.len()
    }

    fn move_steps(&mut self, steps: &[i64], delays_us: &[u64]) -> (r: Result<(), RuntimeError>)
        ensures
            (steps@.len() != old(self).counters().len() || delays_us@.len()
                != old(self).counters().len()) ==> {
                &&& r matches Err(RuntimeError::Config(m)) && m@ == "step/delay length mismatch"@
                &&& final(self).link_calls() == old(self).link_calls()
            },
            (steps@.len() == old(self).counters().len() && delays_us@.len() == old(
                self,
            ).counters().len()) ==> command_exchange(
                old(self).awaits_ack(),
                old(self).link_calls(),
                final(self).link_calls(),
                line_bytes(move_command_text(steps@, delays_us@)),
                r,
            ),
            r is Err ==> final(self).counters() == old(self).counters(),
            final(self).awaits_ack() == old(self).awaits_ack(),
    {
        if steps.len() != self.steps.len() || delays_us.len() != self.steps.len() {
            return Err(RuntimeError::Config(String::from_str("step/delay length mismatch")));
        }
        let line = move_command(steps, delays_us);
        proof {
            reveal_strlit("M ");
            assert(line@.len() > 0 && line@[0] == 'M');
            assert(line@.last() != '\n') by {
                lemma_move_text_last(steps@, delays_us@);
            }
        }
        let r = self.command(line.as_str());
        if r.is_err() {
            return r;
        }
        let ghost link_after = self.link@;
        let n = steps.len();
        let mut i: usize = 0;
        while i < n
            invariant
                0 <= i <= n,
                n == steps@.len(),
                self.steps@.len() == n,
                self.link@ == link_after,
                self.expect_ack == old(self).expect_ack,
                forall|k: int|
                    0 <= k < n ==> #[trigger] self.steps@[k] == if k < i {
                        old(self).steps@[k].wrapping_add(steps@[k])
                    } else {
                        old(self).steps@[k]
                    },
            decreases n - i,
        {
            let v = self.steps[i].wrapping_add(steps[i]);
            self.steps.set(i, v);
            i = i + 1;
        }
        assert(self.steps@ =~= advanced(old(self).steps@, steps@));
        r
    }

    fn positions(&self) -> (p: &[i64]) {
        self.steps.as_slice()
    }

    /// Homes the board as [`StepperBackend::home`] does: `H`, the firmware's
    /// `OK`, then zeroed counters.
    fn home_hardware(&mut self) -> (r: Result<(), RuntimeError>)
        ensures
            command_exchange(old(self).awaits_ack(), old(self).link_calls(), final(self).link_calls(), line_bytes("H"@), r),
            r is Ok ==> final(self).counters() == zeros(old(self).counters().len()),
            r is Err ==> final(self).counters() == old(self).counters(),
            final(self).awaits_ack() == old(self).awaits_ack(),
    {
        self.home()
    }
}

proof fn lemma_decimal_last_digit(n: nat)
    ensures
        decimal(n).len() > 0,
        decimal(n).last() != '\n',
    decreases n,
{
    if n >= 10 {
        lemma_decimal_last_digit(n / 10);
    }
}

proof fn lemma_move_text_last(steps: Seq<i64>, delays_us: Seq<u64>)
    ensures
        move_command_text(steps, delays_us).len() > 0,
        move_command_text(steps, delays_us).last() != '\n',
{
    reveal_strlit("M ");
    let k = steps.len() as int;
    if k > 0 {
        lemma_decimal_last_digit(sent_delay(steps[k - 1], delays_us[k - 1]) as nat);
        assert(move_command_text(steps, delays_us).last() == decimal(
            sent_delay(steps[k - 1], delays_us[k - 1]) as nat,
        ).last());
    } else {
        lemma_decimal_last_digit(steps.len());
        assert(move_command_text(steps, delays_us).last() == decimal(steps.len()).last());
    }
}


/// The firmware's answer is taken as an acknowledgement exactly when it
/// begins with the letters `OK`; any other answer is refused with an error
/// that quotes it after `stepper firmware: `.
pub proof fn lemma_ack_is_ok_prefix(resp: Seq<char>)
    ensures
        ack_outcome(resp) is Ok <==> (resp.len() >= 2 && resp[0] == 'O' && resp[1] == 'K'),
        !(resp.len() >= 2 && resp[0] == 'O' && resp[1] == 'K') ==> ack_outcome(resp) == Err::<(), Seq<char>>(
            "stepper firmware: "@ + resp,
        ),
{
    reveal_strlit("OK");
    if resp.len() >= 2 && resp[0] == 'O' && resp[1] == 'K' {
        assert(resp.take(2) =~= "OK"@);
    }
    if resp.len() >= 2 && resp.take(2) == "OK"@ {
        assert(resp.take(2)[0] == resp[0] && resp.take(2)[1] == resp[1]);
    }
}

} // verus!
