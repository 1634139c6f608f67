//! Comments and blank lines do not change what a venue text says.

use vstd::prelude::*;

use crate::text::{lemma_char_pos, trim, trim_end, trim_start, CharClass};
use crate::venue::{line_content, run_lines, venue_line, venue_scan_spec, ParserSpec, VenueDialect};
use crate::venue_emit::join_lines;
use crate::venue_roundtrip::{fold_lines, no_newline};

verus! {

/// Reading text that starts with whole lines: those lines first, then the
/// rest, unless one of those lines failed.
proof fn lemma_run_prefix(st: ParserSpec, ls: Seq<Seq<char>>, t: Seq<char>, d: VenueDialect)
    requires
        forall|i: int| 0 <= i < ls.len() ==> no_newline(#[trigger] ls[i]),
    ensures
        run_lines(st, join_lines(ls) + t, d) == ({
            let (s, e) = fold_lines(st, ls, d);
            if e is None {
                run_lines(s, t, d)
            } else {
                (s, e)
            }
        }),
    decreases ls.len(),
{
    if ls.len() > 0 {
        let l0 = ls[0];
        let rest = ls.drop_first();
        let whole = join_lines(ls) + t;
        assert(no_newline(l0));
        assert(whole =~= l0 + seq!['\n'] + (join_lines(rest) + t));
        lemma_char_pos(whole, '\n', l0.len() as int);
        assert(whole.take(l0.len() as int) =~= l0);
        assert(whole.skip(l0.len() + 1int) =~= join_lines(rest) + t);
        match venue_line(st, line_content(l0), d) {
            Err(e) => {},
            Ok(s) => {
                assert forall|i: int| 0 <= i < rest.len() implies no_newline(#[trigger] rest[i]) by {
                    assert(rest[i] == ls[i + 1]);
                }
                lemma_run_prefix(s, rest, t, d);
            },
        }
    } else {
        assert(join_lines(ls) + t =~= t);
    }
}

/// A line with nothing before its first `#` but blanks.
pub open spec fn blank_or_comment(line: Seq<char>) -> bool {
    line_content(line).len() == 0
}

/// Inserting a blank or comment line between two lines of a venue text
/// (or before its first line) changes neither what the text says nor the
/// error it meets.
pub proof fn lemma_blank_line_ignored(before: Seq<Seq<char>>, line: Seq<char>, after: Seq<char>, d: VenueDialect)
    requires
        forall|i: int| 0 <= i < before.len() ==> no_newline(#[trigger] before[i]),
        no_newline(line),
        blank_or_comment(line),
    ensures
        venue_scan_spec(join_lines(before) + line + seq!['\n'] + after, d) == venue_scan_spec(
            join_lines(before) + after,
            d,
        ),
{
    let init = crate::venue::initial_parser();
    let with = before.push(line);
    assert forall|i: int| 0 <= i < with.len() implies no_newline(#[trigger] with[i]) by {
        if i < before.len() {
            assert(with[i] == before[i]);
        }
    }
    crate::venue_emit::lemma_join_concat(before, seq![line]);
    assert(before + seq![line] =~= with);
    assert(seq![line].drop_first() =~= Seq::<Seq<char>>::empty());
    assert(seq![line][0] == line);
    assert(join_lines(Seq::<Seq<char>>::empty()) == Seq::<char>::empty());
    assert(join_lines(seq![line]) =~= line + seq!['\n']);
    assert(join_lines(before) + line + seq!['\n'] + after =~= join_lines(with) + after);
    lemma_run_prefix(init, with, after, d);
    lemma_run_prefix(init, before, after, d);
    crate::venue_roundtrip::lemma_fold_concat(init, before, seq![line], d);
    let (s, e) = fold_lines(init, before, d);
    if e is None {
        assert(seq![line][0] == line);
        assert(fold_lines(s, seq![line], d) == fold_lines(s, Seq::<Seq<char>>::empty(), d));
    }
}

proof fn lemma_trim_start_space(l: Seq<char>)
    ensures
        trim_start(l.push(' '), CharClass::Whitespace) == if trim_start(l, CharClass::Whitespace).len()
            == 0 {
            Seq::<char>::empty()
        } else {
            trim_start(l, CharClass::Whitespace).push(' ')
        },
    decreases l.len(),
{
    let w = CharClass::Whitespace;
    assert(crate::text::in_class(' ', w)) by {
        assert((' ' as u32) == 0x20);
    }
    assert(l.push(' ')[0] == if l.len() == 0 { ' ' } else { l[0] });
    if l.len() == 0 {
        assert(l.push(' ').drop_first() =~= Seq::<char>::empty());
        assert(trim_start(Seq::<char>::empty(), w) == Seq::<char>::empty());
    } else if crate::text::in_class(l[0], w) {
        assert(l.push(' ').drop_first() =~= l.drop_first().push(' '));
        lemma_trim_start_space(l.drop_first());
    } else {
    }
}

/// Cutting a line at its first `#` and trimming it gives the same content
/// whether or not a blank and a comment follow the line.
pub proof fn lemma_trailing_comment_content(l: Seq<char>, comment: Seq<char>)
    requires
        forall|j: int| 0 <= j < l.len() ==> l[j] != '#',
    ensures
        line_content(l + " #"@ + comment) == line_content(l),
{
    let w = CharClass::Whitespace;
    let full = l + " #"@ + comment;
    reveal_strlit(" #");
    lemma_char_pos(full, '#', l.len() + 1int);
    lemma_char_pos(l, '#', l.len() as int);
    assert(full.take(l.len() + 1int) =~= l.push(' '));
    assert(l.take(l.len() as int) =~= l);
    lemma_trim_start_space(l);
    let ts = trim_start(l, w);
    if ts.len() == 0 {
        assert(trim_end(Seq::<char>::empty(), w) == Seq::<char>::empty());
    } else {
        assert(ts.push(' ').drop_last() =~= ts);
        assert(trim_end(ts.push(' '), w) == trim_end(ts, w));
    }
}

/// A blank and a `#` comment added at the end of a line that holds no `#`
/// change neither what a venue text says nor the error it meets. `rest` is
/// what follows the line: nothing, or a newline and further lines.
pub proof fn lemma_trailing_comment_ignored(
    before: Seq<Seq<char>>,
    line: Seq<char>,
    comment: Seq<char>,
    rest: Seq<char>,
    d: VenueDialect,
)
    requires
        forall|i: int| 0 <= i < before.len() ==> no_newline(#[trigger] before[i]),
        no_newline(line),
        no_newline(comment),
        forall|j: int| 0 <= j < line.len() ==> line[j] != '#',
        rest.len() == 0 || rest[0] == '\n',
    ensures
        venue_scan_spec(join_lines(before) + (line + " #"@ + comment) + rest, d) == venue_scan_spec(
            join_lines(before) + line + rest,
            d,
        ),
{
    let init = crate::venue::initial_parser();
    let long = line + " #"@ + comment;
    reveal_strlit(" #");
    assert(join_lines(before) + long + rest =~= join_lines(before) + (long + rest));
    assert(join_lines(before) + line + rest =~= join_lines(before) + (line + rest));
    lemma_run_prefix(init, before, long + rest, d);
    lemma_run_prefix(init, before, line + rest, d);
    let (s, e) = fold_lines(init, before, d);
    if e is None {
        let t1 = long + rest;
        let t2 = line + rest;
        assert(no_newline(long)) by {
            assert forall|j: int| 0 <= j < long.len() implies long[j] != '\n' by {
                if j < line.len() {
                    assert(long[j] == line[j]);
                } else if j >= line.len() + 2 {
                    assert(long[j] == comment[j - line.len() - 2]);
                }
            }
        }
        lemma_char_pos(t1, '\n', long.len() as int);
        lemma_char_pos(t2, '\n', line.len() as int);
        assert(t1.take(long.len() as int) =~= long);
        assert(t2.take(line.len() as int) =~= line);
        lemma_trailing_comment_content(line, comment);
        if rest.len() > 0 {
            assert(t1.skip(long.len() + 1int) =~= rest.skip(1));
            assert(t2.skip(line.len() + 1int) =~= rest.skip(1));
        }
    }
}


/// `line` is `plain`, or `plain` followed by a blank and a `#` comment.
pub open spec fn commented_line(plain: Seq<char>, line: Seq<char>) -> bool {
    ||| line == plain
    ||| line.len() >= plain.len() + 2 && line.take(plain.len() + 2int) == plain + " #"@
}

/// The lines `noted` are the lines `plain`, in order, each perhaps with a
/// comment appended, with blank or comment lines inserted anywhere.
pub open spec fn decorated(plain: Seq<Seq<char>>, noted: Seq<Seq<char>>) -> bool
    decreases noted.len(),
{
    if noted.len() == 0 {
        plain.len() == 0
    } else {
        ||| blank_or_comment(noted[0]) && decorated(plain, noted.drop_first())
        ||| plain.len() > 0 && commented_line(plain[0], noted[0]) && decorated(
            plain.drop_first(),
            noted.drop_first(),
        )
    }
}

proof fn lemma_fold_decorated(st: ParserSpec, plain: Seq<Seq<char>>, noted: Seq<Seq<char>>, d: VenueDialect)
    requires
        forall|i: int, j: int| 0 <= i < plain.len() && 0 <= j < plain[i].len() ==> #[trigger] plain[i][j] != '#',
        decorated(plain, noted),
    ensures
        fold_lines(st, noted, d) == fold_lines(st, plain, d),
    decreases noted.len(),
{
    if noted.len() > 0 {
        let rest = noted.drop_first();
        if blank_or_comment(noted[0]) && decorated(plain, rest) {
            assert(venue_line(st, line_content(noted[0]), d) == Ok::<ParserSpec, Seq<char>>(st));
            lemma_fold_decorated(st, plain, rest, d);
        } else {
            let p0 = plain[0];
            let n0 = noted[0];
            assert forall|j: int| 0 <= j < p0.len() implies p0[j] != '#' by {
                assert(plain[0][j] != '#');
            }
            if n0 != p0 {
                reveal_strlit(" #");
                let comment = n0.skip(p0.len() + 2int);
                assert(n0 =~= p0 + " #"@ + comment) by {
                    assert(n0 =~= n0.take(p0.len() + 2int) + comment);
                }
                lemma_trailing_comment_content(p0, comment);
            }
            assert(line_content(n0) == line_content(p0));
            let prest = plain.drop_first();
            assert forall|i: int, j: int| 0 <= i < prest.len() && 0 <= j < prest[i].len() implies #[trigger] prest[i][j]
                != '#' by {
                assert(prest[i] == plain[i + 1]);
                assert(plain[i + 1][j] != '#');
            }
            match venue_line(st, line_content(p0), d) {
                Err(e) => {},
                Ok(s) => {
                    lemma_fold_decorated(s, prest, rest, d);
                },
            }
        }
    }
}

/// Comments and blank lines change nothing: lines that hold no `#`, read
/// with comments appended to any of them and blank or comment lines
/// inserted anywhere, say what the bare lines say and meet the same error.
pub proof fn lemma_comments_change_nothing(plain: Seq<Seq<char>>, noted: Seq<Seq<char>>, d: VenueDialect)
    requires
        forall|i: int| 0 <= i < plain.len() ==> no_newline(#[trigger] plain[i]),
        forall|i: int| 0 <= i < noted.len() ==> no_newline(#[trigger] noted[i]),
        forall|i: int, j: int| 0 <= i < plain.len() && 0 <= j < plain[i].len() ==> #[trigger] plain[i][j] != '#',
        decorated(plain, noted),
    ensures
        venue_scan_spec(join_lines(noted), d) == venue_scan_spec(join_lines(plain), d),
{
    let init = crate::venue::initial_parser();
    crate::venue_roundtrip::lemma_run_join(init, noted, d);
    crate::venue_roundtrip::lemma_run_join(init, plain, d);
    lemma_fold_decorated(init, plain, noted, d);
}

/// A text whose last line has no newline reads as if it had one, so the
/// laws above, stated over whole lines, cover every text.
pub proof fn lemma_final_newline_optional(lines: Seq<Seq<char>>, last: Seq<char>, d: VenueDialect)
    requires
        forall|i: int| 0 <= i < lines.len() ==> no_newline(#[trigger] lines[i]),
        no_newline(last),
    ensures
        venue_scan_spec(join_lines(lines) + last, d) == venue_scan_spec(join_lines(lines.push(last)), d),
{
    let init = crate::venue::initial_parser();
    let all = lines.push(last);
    assert forall|i: int| 0 <= i < all.len() implies no_newline(#[trigger] all[i]) by {
        if i < lines.len() {
            assert(all[i] == lines[i]);
        }
    }
    lemma_run_prefix(init, lines, last, d);
    crate::venue_roundtrip::lemma_run_join(init, all, d);
    crate::venue_roundtrip::lemma_fold_concat(init, lines, seq![last], d);
    assert(lines + seq![last] =~= all);
    let (s, e) = fold_lines(init, lines, d);
    if e is None {
        lemma_char_pos(last, '\n', last.len() as int);
        assert(last.take(last.len() as int) =~= last);
        assert(seq![last][0] == last);
        assert(seq![last].drop_first() =~= Seq::<Seq<char>>::empty());
        match venue_line(s, line_content(last), d) {
            Err(e2) => {
                assert(run_lines(s, last, d) == (s, Some(e2)));
                assert(fold_lines(s, seq![last], d) == (s, Some(e2)));
            },
            Ok(s2) => {
                assert(fold_lines(s2, Seq::<Seq<char>>::empty(), d) == (s2, None::<Seq<char>>));
                assert(run_lines(s, last, d) == (s2, None::<Seq<char>>));
                assert(fold_lines(s, seq![last], d) == (s2, None::<Seq<char>>));
            },
        }
    }
}

} // verus!
