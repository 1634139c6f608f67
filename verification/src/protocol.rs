//! How the stepper backend and the firmware simulator agree: the move line
//! the backend sends is read by the simulator as exactly the steps it was
//! built from, and homing and reporting round it off.

use vstd::prelude::*;

use crate::backend::{advanced, zeros};
use crate::stepper::{line_bytes, move_command_text, move_fields, sent_delay};
use crate::transport::{lemma_sent_line_reads_back, newline_pos};
use vstd::utf8::{decode_utf8, encode_utf8, valid_utf8};
use crate::stepper_sim::{position_report, sim_effect};
use crate::text::{
    decimal, is_digit, is_ws, lemma_decimal_digits, lemma_parse_i64_signed_decimal,
    lemma_parse_unsigned_decimal, lemma_words_concat, lemma_words_spaced_token, signed_decimal,
    trim, trim_end, trim_start, words, words_from, CharClass,
};

verus! {

/// The words of a move line after its axis count: a step field and a
/// period field per axis, for the first `k` axes.
pub open spec fn field_words(steps: Seq<i64>, delays_us: Seq<u64>, k: int) -> Seq<Seq<char>>
    decreases k,
{
    if k <= 0 {
        seq![]
    } else {
        field_words(steps, delays_us, k - 1) + seq![
            signed_decimal(steps[k - 1] as int),
            decimal(sent_delay(steps[k - 1], delays_us[k - 1]) as nat),
        ]
    }
}

proof fn lemma_field_words_index(steps: Seq<i64>, delays_us: Seq<u64>, k: int)
    requires
        0 <= k,
    ensures
        field_words(steps, delays_us, k).len() == 2 * k,
        forall|i: int|
            0 <= i < k ==> #[trigger] field_words(steps, delays_us, k)[2 * i] == signed_decimal(
                steps[i] as int,
            ),
        forall|i: int|
            0 <= i < k ==> #[trigger] field_words(steps, delays_us, k)[2 * i + 1] == decimal(
                sent_delay(steps[i], delays_us[i]) as nat,
            ),
    decreases k,
{
    if k > 0 {
        lemma_field_words_index(steps, delays_us, k - 1);
        let prev = field_words(steps, delays_us, k - 1);
        let cur = field_words(steps, delays_us, k);
        assert forall|i: int| 0 <= i < k implies #[trigger] cur[2 * i] == signed_decimal(
            steps[i] as int,
        ) by {
            if i < k - 1 {
                assert(cur[2 * i] == prev[2 * i]);
            }
        }
        assert forall|i: int| 0 <= i < k implies #[trigger] cur[2 * i + 1] == decimal(
            sent_delay(steps[i], delays_us[i]) as nat,
        ) by {
            if i < k - 1 {
                assert(cur[2 * i + 1] == prev[2 * i + 1]);
            }
        }
    }
}

/// A signed decimal is nonempty and holds no whitespace.
proof fn lemma_signed_decimal_no_ws(x: int)
    ensures
        signed_decimal(x).len() > 0,
        forall|i: int| 0 <= i < signed_decimal(x).len() ==> !is_ws(#[trigger] signed_decimal(x)[i]),
{
    if x < 0 {
        let m = (-x) as nat;
        lemma_decimal_digits(m);
        assert forall|i: int| 0 <= i < signed_decimal(x).len() implies !is_ws(
            #[trigger] signed_decimal(x)[i],
        ) by {
            if i > 0 {
                assert(signed_decimal(x)[i] == decimal(m)[i - 1]);
                assert(is_digit(decimal(m)[i - 1]));
            }
        }
    } else {
        lemma_decimal_digits(x as nat);
        assert forall|i: int| 0 <= i < signed_decimal(x).len() implies !is_ws(
            #[trigger] signed_decimal(x)[i],
        ) by {
            assert(is_digit(decimal(x as nat)[i]));
        }
    }
}

/// A decimal is nonempty and holds no whitespace.
proof fn lemma_decimal_no_ws(n: nat)
    ensures
        decimal(n).len() > 0,
        forall|i: int| 0 <= i < decimal(n).len() ==> !is_ws(#[trigger] decimal(n)[i]),
{
    lemma_decimal_digits(n);
    assert forall|i: int| 0 <= i < decimal(n).len() implies !is_ws(#[trigger] decimal(n)[i]) by {
        assert(is_digit(decimal(n)[i]));
    }
}

proof fn lemma_move_words(n: nat, steps: Seq<i64>, delays_us: Seq<u64>, k: int)
    requires
        0 <= k <= steps.len(),
        steps.len() == delays_us.len(),
    ensures
        words_from(seq![' '] + decimal(n) + move_fields(steps, delays_us, k), seq![]) == seq![
            decimal(n),
        ] + field_words(steps, delays_us, k),
    decreases k,
{
    lemma_decimal_no_ws(n);
    if k == 0 {
        assert(seq![' '] + decimal(n) + move_fields(steps, delays_us, k) =~= seq![' '] + decimal(n));
        lemma_words_spaced_token(decimal(n));
        assert(seq![decimal(n)] + field_words(steps, delays_us, k) =~= seq![decimal(n)]);
    } else {
        lemma_move_words(n, steps, delays_us, k - 1);
        let sd = signed_decimal(steps[k - 1] as int);
        let dd = decimal(sent_delay(steps[k - 1], delays_us[k - 1]) as nat);
        lemma_signed_decimal_no_ws(steps[k - 1] as int);
        lemma_decimal_no_ws(sent_delay(steps[k - 1], delays_us[k - 1]) as nat);
        let prev = seq![' '] + decimal(n) + move_fields(steps, delays_us, k - 1);
        let b1 = seq![' '] + sd;
        let b2 = seq![' '] + dd;
        assert(seq![' '] + decimal(n) + move_fields(steps, delays_us, k) =~= (prev + b1) + b2);
        lemma_words_concat(prev + b1, b2, seq![]);
        lemma_words_concat(prev, b1, seq![]);
        lemma_words_spaced_token(sd);
        lemma_words_spaced_token(dd);
        assert(seq![decimal(n)] + field_words(steps, delays_us, k) =~= (seq![decimal(n)]
            + field_words(steps, delays_us, k - 1)) + seq![sd] + seq![dd]);
    }
}

/// The last character of a move line with at least one axis is a digit.
proof fn lemma_move_fields_last(steps: Seq<i64>, delays_us: Seq<u64>, k: int)
    requires
        0 < k <= steps.len(),
        steps.len() == delays_us.len(),
    ensures
        move_fields(steps, delays_us, k).len() > 0,
        is_digit(move_fields(steps, delays_us, k).last()),
{
    let dd = decimal(sent_delay(steps[k - 1], delays_us[k - 1]) as nat);
    lemma_decimal_digits(sent_delay(steps[k - 1], delays_us[k - 1]) as nat);
    assert(move_fields(steps, delays_us, k).last() == dd.last());
    assert(is_digit(dd[dd.len() - 1]));
}

/// What the backend sends, the simulator applies: reading the move line
/// built from `steps` (at least one axis) advances each of the simulator's
/// first `steps.len()` counters by its step count (wrapping, as the counters
/// do), leaves any further counters alone, and answers `OK`.
pub proof fn lemma_sim_applies_move_command(pos: Seq<i64>, steps: Seq<i64>, delays_us: Seq<u64>)
    requires
        steps.len() == delays_us.len(),
        0 < steps.len() <= usize::MAX,
    ensures
        sim_effect(pos, move_command_text(steps, delays_us).push('\n')) == (
            Seq::new(
                pos.len(),
                |i: int|
                    if i < steps.len() {
                        pos[i].wrapping_add(steps[i])
                    } else {
                        pos[i]
                    },
            ),
            "OK"@,
        ),
{
    let n = steps.len();
    let t = move_command_text(steps, delays_us);
    let line = t.push('\n');
    reveal_strlit("M ");
    reveal_strlit("H");
    reveal_strlit("E");
    reveal_strlit("P");
    lemma_move_fields_last(steps, delays_us, n as int);
    lemma_decimal_digits(n);
    // The line trims to the command text.
    assert(t[0] == 'M');
    assert(line[0] == 'M');
    assert(!is_ws(line[0]));
    assert(trim_start(line, CharClass::Whitespace) == line);
    assert(line.last() == '\n');
    assert(line.drop_last() =~= t);
    assert(t.last() == move_fields(steps, delays_us, n as int).last());
    assert(!is_ws(t.last()));
    assert(trim_end(t, CharClass::Whitespace) == t);
    assert(trim(line, CharClass::Whitespace) == t);
    assert(t.len() > 1);
    assert(t != "H"@ && t != "E"@ && t != "P"@);
    // Its words after the `M`.
    let rest = t.drop_first();
    assert(rest =~= seq![' '] + decimal(n) + move_fields(steps, delays_us, n as int));
    lemma_move_words(n, steps, delays_us, n as int);
    let parts = words(rest);
    assert(parts == seq![decimal(n)] + field_words(steps, delays_us, n as int));
    lemma_field_words_index(steps, delays_us, n as int);
    assert(parts[0] == decimal(n));
    lemma_parse_unsigned_decimal(n, usize::MAX as int);
    assert forall|i: int| 0 <= i < n implies crate::stepper_sim::step_value(#[trigger] parts[1 + 2 * i])
        == steps[i] by {
        assert(parts[1 + 2 * i] == field_words(steps, delays_us, n as int)[2 * i]);
        lemma_parse_i64_signed_decimal(steps[i]);
    }
    assert(crate::stepper_sim::moved_positions(pos, parts, n as int) =~= Seq::new(
        pos.len(),
        |i: int|
            if i < steps.len() {
                pos[i].wrapping_add(steps[i])
            } else {
                pos[i]
            },
    ));
}

/// The backend's bookkeeping and the firmware's counters agree: when the
/// simulator starts from the counters the backend holds, reading the move
/// line leaves it with the counters the backend advances to.
pub proof fn lemma_backend_and_sim_agree(pos: Seq<i64>, steps: Seq<i64>, delays_us: Seq<u64>)
    requires
        steps.len() == delays_us.len() == pos.len(),
        0 < steps.len() <= usize::MAX,
    ensures
        sim_effect(pos, move_command_text(steps, delays_us).push('\n')).0 == advanced(pos, steps),
{
    lemma_sim_applies_move_command(pos, steps, delays_us);
    assert(sim_effect(pos, move_command_text(steps, delays_us).push('\n')).0 =~= advanced(pos, steps));
}

/// Homing zeroes every counter, and the report that follows reads zeros.
pub proof fn lemma_home_then_report(pos: Seq<i64>)
    ensures
        sim_effect(pos, "H\n"@).0 == zeros(pos.len()),
        sim_effect(sim_effect(pos, "H\n"@).0, "P"@).1 == position_report(zeros(pos.len())),
{
    reveal_strlit("H\n");
    reveal_strlit("H");
    reveal_strlit("E");
    reveal_strlit("P");
    let line = "H\n"@;
    assert(trim_start(line, CharClass::Whitespace) == line);
    assert(line.drop_last() =~= "H"@);
    assert(trim_end("H"@, CharClass::Whitespace) == "H"@);
    assert(trim(line, CharClass::Whitespace) == "H"@);
    assert(sim_effect(pos, line).0 =~= zeros(pos.len()));
    let p = "P"@;
    assert(trim_start(p, CharClass::Whitespace) == p);
    assert(trim_end(p, CharClass::Whitespace) == p);
    assert(p[0] != "H"@[0] && p[0] != "E"@[0]);
    assert(p != "H"@ && p != "E"@);
}


/// No newline and no carriage return in `s`.
pub open spec fn single_line(s: Seq<char>) -> bool {
    forall|i: int| 0 <= i < s.len() ==> #[trigger] s[i] != '\n' && s[i] != '\r'
}

proof fn lemma_single_line_concat(a: Seq<char>, b: Seq<char>)
    requires
        single_line(a),
        single_line(b),
    ensures
        single_line(a + b),
{
    assert forall|i: int| 0 <= i < (a + b).len() implies #[trigger] (a + b)[i] != '\n' && (a + b)[i]
        != '\r' by {
        if i < a.len() {
            assert((a + b)[i] == a[i]);
        } else {
            assert((a + b)[i] == b[i - a.len()]);
        }
    }
}

proof fn lemma_decimal_single_line(n: nat)
    ensures
        single_line(decimal(n)),
{
    lemma_decimal_digits(n);
    assert forall|i: int| 0 <= i < decimal(n).len() implies #[trigger] decimal(n)[i] != '\n'
        && decimal(n)[i] != '\r' by {
        assert(is_digit(decimal(n)[i]));
        assert(('\n' as u32) == 10 && ('\r' as u32) == 13);
    }
}

proof fn lemma_signed_decimal_single_line(x: int)
    ensures
        single_line(signed_decimal(x)),
{
    if x < 0 {
        lemma_decimal_single_line((-x) as nat);
        lemma_single_line_concat(seq!['-'], decimal((-x) as nat));
    } else {
        lemma_decimal_single_line(x as nat);
    }
}

proof fn lemma_move_fields_single_line(steps: Seq<i64>, delays_us: Seq<u64>, k: int)
    requires
        k <= steps.len(),
        k <= delays_us.len(),
    ensures
        single_line(move_fields(steps, delays_us, k)),
    decreases k,
{
    if k > 0 {
        lemma_move_fields_single_line(steps, delays_us, k - 1);
        lemma_signed_decimal_single_line(steps[k - 1] as int);
        lemma_decimal_single_line(sent_delay(steps[k - 1], delays_us[k - 1]) as nat);
        let a = move_fields(steps, delays_us, k - 1);
        lemma_single_line_concat(a, seq![' ']);
        lemma_single_line_concat(a + seq![' '], signed_decimal(steps[k - 1] as int));
        lemma_single_line_concat(a + seq![' '] + signed_decimal(steps[k - 1] as int), seq![' ']);
        lemma_single_line_concat(
            a + seq![' '] + signed_decimal(steps[k - 1] as int) + seq![' '],
            decimal(sent_delay(steps[k - 1], delays_us[k - 1]) as nat),
        );
    }
}

/// A command line as it travels: the bytes the stepper backend writes for a
/// move (or for `H`), followed by whatever comes next on the link, are framed
/// at the far end (by [`crate::transport::LineBuffer::take_line`]) as exactly
/// that command line, with the rest left buffered.
pub proof fn lemma_command_bytes_frame_back(steps: Seq<i64>, delays_us: Seq<u64>, rest: Seq<u8>)
    requires
        steps.len() == delays_us.len(),
    ensures
        ({
            let t = move_command_text(steps, delays_us);
            let bytes = line_bytes(t) + rest;
            let p = encode_utf8(t).len() as int;
            &&& newline_pos(bytes) == p
            &&& valid_utf8(bytes.take(p + 1))
            &&& trim_end(decode_utf8(bytes.take(p + 1)), CharClass::LineEnd) == t
            &&& bytes.skip(p + 1) == rest
        }),
        ({
            let bytes = line_bytes("H"@) + rest;
            let p = encode_utf8("H"@).len() as int;
            &&& newline_pos(bytes) == p
            &&& valid_utf8(bytes.take(p + 1))
            &&& trim_end(decode_utf8(bytes.take(p + 1)), CharClass::LineEnd) == "H"@
            &&& bytes.skip(p + 1) == rest
        }),
{
    let t = move_command_text(steps, delays_us);
    reveal_strlit("M ");
    reveal_strlit("H");
    assert(single_line("M "@)) by {
        assert(('\n' as u32) == 10 && ('\r' as u32) == 13);
    }
    lemma_decimal_single_line(steps.len());
    lemma_move_fields_single_line(steps, delays_us, steps.len() as int);
    lemma_single_line_concat("M "@, decimal(steps.len()));
    lemma_single_line_concat("M "@ + decimal(steps.len()), move_fields(steps, delays_us, steps.len() as int));
    assert(t.last() != '\r') by {
        assert(t[t.len() - 1] != '\r');
    }
    lemma_sent_line_reads_back(t, rest);
    assert(single_line("H"@)) by {
        assert(('\n' as u32) == 10 && ('\r' as u32) == 13);
    }
    lemma_sent_line_reads_back("H"@, rest);
}


/// The words of a move line: `M`, the axis count, then for each axis its
/// step count and its step period in µs. The period is the one asked for,
/// except that an axis that moves with a period of 0 is sent 200.
pub proof fn lemma_move_line_words(steps: Seq<i64>, delays_us: Seq<u64>)
    requires
        steps.len() == delays_us.len(),
    ensures
        ({
            let w = words(move_command_text(steps, delays_us));
            let n = steps.len() as int;
            &&& w.len() == 2 + 2 * n
            &&& w[0] == "M"@
            &&& w[1] == decimal(steps.len())
            &&& forall|i: int| 0 <= i < n ==> #[trigger] w[2 + 2 * i] == signed_decimal(steps[i] as int)
            &&& forall|i: int|
                0 <= i < n ==> #[trigger] w[3 + 2 * i] == decimal(
                    (if steps[i] != 0 && delays_us[i] == 0 {
                        200
                    } else {
                        delays_us[i] as int
                    }) as nat,
                )
        }),
{
    let n = steps.len();
    let t = move_command_text(steps, delays_us);
    reveal_strlit("M ");
    reveal_strlit("M");
    let r = t.drop_first();
    assert(r =~= seq![' '] + decimal(n) + move_fields(steps, delays_us, n as int));
    lemma_move_words(n, steps, delays_us, n as int);
    assert(t[0] == 'M');
    assert(!is_ws('M')) by {
        assert(('M' as u32) == 77);
    }
    assert(is_ws(' ')) by {
        assert((' ' as u32) == 32);
    }
    assert(seq![].push('M') =~= "M"@);
    assert(words(t) == words_from(r, seq!['M']));
    assert(r[0] == ' ');
    assert(words_from(r, seq!['M']) == seq!["M"@] + words_from(r.drop_first(), seq![]));
    assert(words_from(r, seq![]) == words_from(r.drop_first(), seq![]));
    let w = words(t);
    let fw = field_words(steps, delays_us, n as int);
    assert(w =~= seq!["M"@] + (seq![decimal(n)] + fw));
    lemma_field_words_index(steps, delays_us, n as int);
    assert forall|i: int| 0 <= i < n implies #[trigger] w[2 + 2 * i] == signed_decimal(steps[i] as int) by {
        assert(w[2 + 2 * i] == fw[2 * i]);
    }
    assert forall|i: int| 0 <= i < n implies #[trigger] w[3 + 2 * i] == decimal(
        (if steps[i] != 0 && delays_us[i] == 0 {
            200
        } else {
            delays_us[i] as int
        }) as nat,
    ) by {
        assert(w[3 + 2 * i] == fw[2 * i + 1]);
    }
}

} // verus!
