//! Reading back a written venue file gives what was written.

use vstd::prelude::*;

use crate::text::{decimal, is_digit, is_ws, lemma_char_pos, lemma_decimal_digits, trim, trim_end, trim_start, CharClass};
use crate::venue::{
    apply_key, empty_draft, flush_spec, initial_parser, resolve_spec, venue_scan_spec, ShapeSpec, AnchorSpec, line_content, noted, run_lines, venue_line, BlockKind, DraftSpec, ParserSpec, PointSpec,
    VenueDialect, VenueSpec,
};
use crate::venue_emit::{anchor_lines, anchors_lines, attachment_lines, attachments_lines, bool_text, join_lines, model_lines, venue_lines, CableModelOutSpec, kv, opt_line, opt_point_lines, point_lines, AnchorOutSpec};

verus! {

/// Lines read one after another from state `st`: the state after the last
/// line read without error, and the error of the line that failed.
pub open spec fn fold_lines(st: ParserSpec, ls: Seq<Seq<char>>, d: VenueDialect) -> (
    ParserSpec,
    Option<Seq<char>>,
)
    decreases ls.len(),
{
    if ls.len() == 0 {
        (st, None)
    } else {
        match venue_line(st, line_content(ls[0]), d) {
            Err(e) => (st, Some(e)),
            Ok(s) => fold_lines(s, ls.drop_first(), d),
        }
    }
}

pub open spec fn no_newline(l: Seq<char>) -> bool {
    forall|j: int| 0 <= j < l.len() ==> l[j] != '\n'
}

proof fn lemma_trim_empty(cls: CharClass)
    ensures
        trim(Seq::<char>::empty(), cls) == Seq::<char>::empty(),
{
}

/// Reading the joined text is reading its lines one by one.
pub proof fn lemma_run_join(st: ParserSpec, ls: Seq<Seq<char>>, d: VenueDialect)
    requires
        forall|i: int| 0 <= i < ls.len() ==> no_newline(#[trigger] ls[i]),
    ensures
        run_lines(st, join_lines(ls), d) == fold_lines(st, ls, d),
    decreases ls.len(),
{
    let t = join_lines(ls);
    if ls.len() == 0 {
        let e = Seq::<char>::empty();
        assert(t =~= e);
        assert(e.take(0) =~= e);
        lemma_trim_empty(CharClass::Whitespace);
        assert(line_content(e) =~= e);
    } else {
        let l0 = ls[0];
        let rest = ls.drop_first();
        assert(no_newline(l0));
        assert(t =~= l0 + seq!['\n'] + join_lines(rest));
        lemma_char_pos(t, '\n', l0.len() as int);
        assert(t.take(l0.len() as int) =~= l0);
        assert(t.skip(l0.len() + 1int) =~= join_lines(rest));
        match venue_line(st, line_content(l0), d) {
            Err(e) => {},
            Ok(s) => {
                assert forall|i: int| 0 <= i < rest.len() implies no_newline(#[trigger] rest[i]) by {
                    assert(rest[i] == ls[i + 1]);
                }
                lemma_run_join(s, rest, d);
            },
        }
    }
}

/// Reading two runs of lines: the second starts from where the first ended,
/// unless the first failed.
pub proof fn lemma_fold_concat(st: ParserSpec, a: Seq<Seq<char>>, b: Seq<Seq<char>>, d: VenueDialect)
    ensures
        fold_lines(st, a + b, d) == ({
            let (s, e) = fold_lines(st, a, d);
            if e is None {
                fold_lines(s, b, d)
            } else {
                (s, e)
            }
        }),
    decreases a.len(),
{
    if a.len() == 0 {
        assert(a + b =~= b);
    } else {
        assert((a + b)[0] == a[0]);
        assert((a + b).drop_first() =~= a.drop_first() + b);
        match venue_line(st, line_content(a[0]), d) {
            Err(e) => {},
            Ok(s) => {
                lemma_fold_concat(s, a.drop_first(), b, d);
            },
        }
    }
}

/// A key that the reader takes as written: nonempty, no whitespace, `=`,
/// `#` or `"`, and not starting with `[`.
pub open spec fn key_token(k: Seq<char>) -> bool {
    &&& k.len() > 0
    &&& k[0] != '['
    &&& forall|j: int|
        0 <= j < k.len() ==> !is_ws(#[trigger] k[j]) && k[j] != '=' && k[j] != '#' && k[j] != '"'
}

/// A value text that the reader takes as written: nonempty, and no
/// whitespace, `#` or `"` in it.
pub open spec fn clean_value(v: Seq<char>) -> bool {
    &&& v.len() > 0
    &&& forall|j: int| 0 <= j < v.len() ==> !is_ws(#[trigger] v[j]) && v[j] != '#' && v[j] != '"'
}

/// A `key = value` line is read as that key with that value.
pub proof fn lemma_kv_line(st: ParserSpec, k: Seq<char>, v: Seq<char>, d: VenueDialect)
    requires
        key_token(k),
        v.len() > 0,
        !is_ws(v[0]),
        !is_ws(v.last()),
        forall|j: int| 0 <= j < v.len() ==> #[trigger] v[j] != '#',
    ensures
        line_content(kv(k, v)) == kv(k, v),
        venue_line(st, kv(k, v), d) == apply_key(st, k, trim(v, CharClass::Quote), d),
{
    reveal_strlit(" = ");
    reveal_strlit("[[anchors]]");
    reveal_strlit("[[attachments]]");
    reveal_strlit("[home]");
    let line = kv(k, v);
    let n = k.len() as int;
    assert(line =~= k + seq![' ', '=', ' '] + v);
    assert forall|j: int| 0 <= j < line.len() implies line[j] != '#' by {
        if j < n {
            assert(line[j] == k[j]);
        } else if j >= n + 3 {
            assert(line[j] == v[j - n - 3]);
        }
    }
    lemma_char_pos(line, '#', line.len() as int);
    assert(line.take(line.len() as int) =~= line);
    assert(line[0] == k[0]);
    assert(!is_ws(k[0]));
    assert(trim_start(line, CharClass::Whitespace) == line);
    assert(line.last() == v.last());
    assert(trim_end(line, CharClass::Whitespace) == line);
    assert(line_content(line) == line);
    assert(line[0] != "[[anchors]]"@[0]);
    assert(line[0] != "[[attachments]]"@[0]);
    assert(line[0] != "[home]"@[0]);
    assert forall|j: int| 0 <= j < n + 1 implies line[j] != '=' by {
        if j < n {
            assert(line[j] == k[j]);
        }
    }
    lemma_char_pos(line, '=', n + 1);
    let kp = line.take(n + 1);
    assert(kp =~= k.push(' '));
    assert(trim_start(kp, CharClass::Whitespace) == kp);
    assert(kp.drop_last() =~= k);
    assert(k[k.len() - 1] == k.last());
    assert(!is_ws(k.last()));
    assert(trim_end(k, CharClass::Whitespace) == k);
    assert(trim(kp, CharClass::Whitespace) == k);
    let vp = line.skip(n + 2);
    assert(vp =~= seq![' '] + v);
    assert(vp.drop_first() =~= v);
    assert(trim_start(v, CharClass::Whitespace) == v);
    assert(trim_start(vp, CharClass::Whitespace) == v);
    assert(trim_end(v, CharClass::Whitespace) == v);
}

pub proof fn lemma_fold_cons(st: ParserSpec, l: Seq<char>, rest: Seq<Seq<char>>, d: VenueDialect)
    ensures
        fold_lines(st, seq![l] + rest, d) == match venue_line(st, line_content(l), d) {
            Err(e) => (st, Some(e)),
            Ok(s) => fold_lines(s, rest, d),
        },
{
    assert((seq![l] + rest)[0] == l);
    assert((seq![l] + rest).drop_first() =~= rest);
}

/// A block header is read as written.
pub proof fn lemma_header_content(h: Seq<char>)
    requires
        h == "[[anchors]]"@ || h == "[[attachments]]"@ || h == "[home]"@,
    ensures
        line_content(h) == h,
        no_newline(h),
{
    reveal_strlit("[[anchors]]");
    reveal_strlit("[[attachments]]");
    reveal_strlit("[home]");
    lemma_char_pos(h, '#', h.len() as int);
    assert(h.take(h.len() as int) =~= h);
    assert(h[0] == '[');
    assert(trim_start(h, CharClass::Whitespace) == h);
    assert(h.last() == ']');
    assert(trim_end(h, CharClass::Whitespace) == h);
}

/// A comment line holds nothing.
pub proof fn lemma_comment_content(c: Seq<char>)
    requires
        c.len() > 0,
        c[0] == '#',
    ensures
        line_content(c) == Seq::<char>::empty(),
{
    lemma_char_pos(c, '#', 0);
    assert(c.take(0) =~= Seq::<char>::empty());
}

/// An empty line holds nothing.
pub proof fn lemma_blank_content()
    ensures
        line_content(Seq::<char>::empty()) == Seq::<char>::empty(),
{
    let e = Seq::<char>::empty();
    assert(e.take(0) =~= e);
}

/// A clean value loses nothing to quote trimming.
pub proof fn lemma_clean_unquoted(v: Seq<char>)
    requires
        clean_value(v),
    ensures
        trim(v, CharClass::Quote) == v,
        !is_ws(v[0]),
        !is_ws(v.last()),
        forall|j: int| 0 <= j < v.len() ==> #[trigger] v[j] != '#',
{
    assert(v[0] != '"');
    assert(v[v.len() - 1] != '"');
    assert(trim_start(v, CharClass::Quote) == v);
    assert(trim_end(v, CharClass::Quote) == v);
    assert(!is_ws(v[v.len() - 1]));
}

/// A quoted clean value loses exactly its quotes.
pub proof fn lemma_quoted(m: Seq<char>)
    requires
        clean_value(m),
    ensures
        trim("\""@ + m + "\""@, CharClass::Quote) == m,
        !is_ws(("\""@ + m + "\""@)[0]),
        !is_ws(("\""@ + m + "\""@).last()),
        ("\""@ + m + "\""@).len() > 0,
        forall|j: int| 0 <= j < ("\""@ + m + "\""@).len() ==> #[trigger] ("\""@ + m + "\""@)[j] != '#',
{
    reveal_strlit("\"");
    let q = "\""@ + m + "\""@;
    assert(q =~= seq!['"'] + m + seq!['"']);
    assert(q.drop_first() =~= m + seq!['"']);
    assert(m[0] != '"');
    assert((m + seq!['"'])[0] == m[0]);
    assert(trim_start(m + seq!['"'], CharClass::Quote) == m + seq!['"']);
    assert(trim_start(q, CharClass::Quote) == m + seq!['"']);
    assert((m + seq!['"']).drop_last() =~= m);
    assert(m[m.len() - 1] != '"');
    assert(trim_end(m, CharClass::Quote) == m);
    assert(trim_end(m + seq!['"'], CharClass::Quote) == m);
    assert forall|j: int| 0 <= j < q.len() implies #[trigger] q[j] != '#' by {
        if 0 < j < q.len() - 1 {
            assert(q[j] == m[j - 1]);
        }
    }
}

/// A clean `key = value` line has no newline in it.
pub proof fn lemma_kv_no_newline(k: Seq<char>, v: Seq<char>)
    requires
        key_token(k),
        forall|j: int| 0 <= j < v.len() ==> !is_ws(#[trigger] v[j]),
    ensures
        no_newline(kv(k, v)),
{
    reveal_strlit(" = ");
    let line = kv(k, v);
    let n = k.len() as int;
    assert forall|j: int| 0 <= j < line.len() implies line[j] != '\n' by {
        if j < n {
            assert(line[j] == k[j]);
            assert(!is_ws(k[j]));
        } else if j >= n + 3 {
            assert(line[j] == v[j - n - 3]);
        } else {
            assert(line[j] == " = "@[j - n]);
        }
    }
}

proof fn lemma_word_key(k: Seq<char>)
    requires
        k.len() > 0,
        forall|j: int| 0 <= j < k.len() ==> ('a' <= #[trigger] k[j] && k[j] <= 'z') || k[j] == '_',
    ensures
        key_token(k),
{
    assert forall|j: int| 0 <= j < k.len() implies !is_ws(#[trigger] k[j]) && k[j] != '=' && k[j] != '#'
        && k[j] != '"' by {
        assert(('a' <= k[j] && k[j] <= 'z') || k[j] == '_');
    }
}

/// A point whose coordinate texts are all clean.
pub open spec fn clean_point(p: PointSpec) -> bool {
    clean_value(p.x) && clean_value(p.y) && clean_value(p.z)
}

pub open spec fn full_draft(p: PointSpec) -> DraftSpec {
    DraftSpec { x: Some(p.x), y: Some(p.y), z: Some(p.z) }
}

/// The coordinate lines of a block fill its draft.
proof fn lemma_block_point(st: ParserSpec, p: PointSpec, d: VenueDialect)
    requires
        st.draft is Some,
        clean_point(p),
    ensures
        fold_lines(st, point_lines("x"@, "y"@, "z"@, p), d) == (
            ParserSpec {
                doc: noted(noted(noted(st.doc, p.x), p.y), p.z),
                draft: Some(full_draft(p)),
                ..st
            },
            None::<Seq<char>>,
        ),
{
    reveal_strlit("x");
    reveal_strlit("y");
    reveal_strlit("z");
    lemma_word_key("x"@);
    lemma_word_key("y"@);
    lemma_word_key("z"@);
    lemma_clean_unquoted(p.x);
    lemma_clean_unquoted(p.y);
    lemma_clean_unquoted(p.z);
    let kx = kv("x"@, p.x);
    let ky = kv("y"@, p.y);
    let kz = kv("z"@, p.z);
    let dr = st.draft->0;
    lemma_kv_line(st, "x"@, p.x, d);
    let s1 = ParserSpec {
        doc: noted(st.doc, p.x),
        draft: Some(DraftSpec { x: Some(p.x), ..dr }),
        ..st
    };
    assert(venue_line(st, line_content(kx), d) == Ok::<ParserSpec, Seq<char>>(s1));
    lemma_kv_line(s1, "y"@, p.y, d);
    let s2 = ParserSpec {
        doc: noted(s1.doc, p.y),
        draft: Some(DraftSpec { x: Some(p.x), y: Some(p.y), ..dr }),
        ..st
    };
    assert("y"@ != "x"@);
    assert(venue_line(s1, line_content(ky), d) == Ok::<ParserSpec, Seq<char>>(s2));
    lemma_kv_line(s2, "z"@, p.z, d);
    let s3 = ParserSpec { doc: noted(s2.doc, p.z), draft: Some(full_draft(p)), ..st };
    assert("z"@ != "x"@ && "z"@ != "y"@);
    assert(venue_line(s2, line_content(kz), d) == Ok::<ParserSpec, Seq<char>>(s3));
    let ls = point_lines("x"@, "y"@, "z"@, p);
    assert(ls =~= seq![kx] + (seq![ky] + (seq![kz] + Seq::<Seq<char>>::empty())));
    lemma_fold_cons(st, kx, seq![ky] + (seq![kz] + Seq::<Seq<char>>::empty()), d);
    lemma_fold_cons(s1, ky, seq![kz] + Seq::<Seq<char>>::empty(), d);
    lemma_fold_cons(s2, kz, Seq::<Seq<char>>::empty(), d);
}

/// Chaining two runs of lines that both read without error.
proof fn lemma_fold_then(
    st: ParserSpec,
    a: Seq<Seq<char>>,
    b: Seq<Seq<char>>,
    mid: ParserSpec,
    end: (ParserSpec, Option<Seq<char>>),
    d: VenueDialect,
)
    requires
        fold_lines(st, a, d) == (mid, None::<Seq<char>>),
        fold_lines(mid, b, d) == end,
    ensures
        fold_lines(st, a + b, d) == end,
{
    lemma_fold_concat(st, a, b, d);
}

pub open spec fn clean_opt(v: Option<Seq<char>>) -> bool {
    match v {
        Some(t) => clean_value(t),
        None => true,
    }
}

pub open spec fn clean_opt_point(p: Option<PointSpec>) -> bool {
    match p {
        Some(q) => clean_point(q),
        None => true,
    }
}

/// An anchor whose texts are all clean.
pub open spec fn clean_anchor(a: AnchorOutSpec) -> bool {
    &&& clean_point(a.exit)
    &&& clean_opt(a.pulley_radius)
    &&& clean_opt_point(a.pulley_axis)
    &&& clean_opt_point(a.pulley_winch_exit)
    &&& clean_opt(a.pulley_runout_m)
}

pub open spec fn opt_seq(v: Option<Seq<char>>) -> Seq<Seq<char>> {
    match v {
        Some(t) => seq![t],
        None => seq![],
    }
}

/// `doc` with the numeric texts `more` noted after its own.
pub open spec fn with_numbers(doc: VenueSpec, more: Seq<Seq<char>>) -> VenueSpec {
    VenueSpec { number_texts: doc.number_texts + more, ..doc }
}

/// The numbers read in an anchor block, in order.
pub open spec fn anchor_numbers(a: AnchorOutSpec) -> Seq<Seq<char>> {
    seq![a.exit.x, a.exit.y, a.exit.z] + opt_seq(a.pulley_radius) + opt_seq(a.pulley_runout_m)
}

/// Keys that an open block passes over.
pub open spec fn ignored_in_block(k: Seq<char>) -> bool {
    &&& key_token(k)
    &&& k != "x"@
    &&& k != "y"@
    &&& k != "z"@
    &&& k != "pulley_radius"@
    &&& k != "pulley_runout_m"@
}

proof fn lemma_ignored_kv(st: ParserSpec, k: Seq<char>, v: Seq<char>, d: VenueDialect)
    requires
        st.draft is Some,
        ignored_in_block(k),
        clean_value(v),
    ensures
        fold_lines(st, seq![kv(k, v)], d) == (st, None::<Seq<char>>),
{
    lemma_clean_unquoted(v);
    lemma_kv_line(st, k, v, d);
    lemma_fold_cons(st, kv(k, v), Seq::<Seq<char>>::empty(), d);
    assert(seq![kv(k, v)] + Seq::<Seq<char>>::empty() =~= seq![kv(k, v)]);
}

proof fn lemma_ignored_point(
    st: ParserSpec,
    kx: Seq<char>,
    ky: Seq<char>,
    kz: Seq<char>,
    q: Option<PointSpec>,
    d: VenueDialect,
)
    requires
        st.draft is Some,
        ignored_in_block(kx),
        ignored_in_block(ky),
        ignored_in_block(kz),
        clean_opt_point(q),
    ensures
        fold_lines(st, opt_point_lines(kx, ky, kz, q), d) == (st, None::<Seq<char>>),
{
    match q {
        None => {},
        Some(p) => {
            lemma_ignored_kv(st, kx, p.x, d);
            lemma_ignored_kv(st, ky, p.y, d);
            lemma_ignored_kv(st, kz, p.z, d);
            assert(point_lines(kx, ky, kz, p) =~= seq![kv(kx, p.x)] + seq![kv(ky, p.y)] + seq![kv(kz, p.z)]);
            lemma_fold_then(st, seq![kv(kx, p.x)], seq![kv(ky, p.y)], st, (st, None), d);
            lemma_fold_then(
                st,
                seq![kv(kx, p.x)] + seq![kv(ky, p.y)],
                seq![kv(kz, p.z)],
                st,
                (st, None),
                d,
            );
        },
    }
}

/// An anchor's pulley axis and winch keys are passed over in its block.
proof fn lemma_ignored_keys()
    ensures
        ignored_in_block("pulley_axis_x"@),
        ignored_in_block("pulley_axis_y"@),
        ignored_in_block("pulley_axis_z"@),
        ignored_in_block("winch_x"@),
        ignored_in_block("winch_y"@),
        ignored_in_block("winch_z"@),
{
    reveal_strlit("x");
    reveal_strlit("y");
    reveal_strlit("z");
    reveal_strlit("pulley_radius");
    reveal_strlit("pulley_runout_m");
    reveal_strlit("pulley_axis_x");
    reveal_strlit("pulley_axis_y");
    reveal_strlit("pulley_axis_z");
    reveal_strlit("winch_x");
    reveal_strlit("winch_y");
    reveal_strlit("winch_z");
    lemma_word_key("pulley_axis_x"@);
    lemma_word_key("pulley_axis_y"@);
    lemma_word_key("pulley_axis_z"@);
    lemma_word_key("winch_x"@);
    lemma_word_key("winch_y"@);
    lemma_word_key("winch_z"@);
    assert("pulley_axis_x"@[7] != "pulley_radius"@[7]);
    assert("pulley_axis_y"@[7] != "pulley_radius"@[7]);
    assert("pulley_axis_z"@[7] != "pulley_radius"@[7]);
}

/// The optional pulley line of an anchor block sets the draft's pulley value.
proof fn lemma_anchor_opt_key(st: ParserSpec, k: Seq<char>, v: Option<Seq<char>>, is_radius: bool)
    requires
        st.draft is Some,
        st.kind == BlockKind::Anchor,
        clean_opt(v),
        is_radius ==> k == "pulley_radius"@,
        !is_radius ==> k == "pulley_runout_m"@,
    ensures
        fold_lines(st, opt_line(k, v), VenueDialect::Gui) == (
            match v {
                None => st,
                Some(t) => if is_radius {
                    ParserSpec { doc: noted(st.doc, t), draft_pulley_radius: Some(t), ..st }
                } else {
                    ParserSpec { doc: noted(st.doc, t), draft_runout: Some(t), ..st }
                },
            },
            None::<Seq<char>>,
        ),
{
    match v {
        None => {},
        Some(t) => {
            reveal_strlit("x");
            reveal_strlit("y");
            reveal_strlit("z");
            reveal_strlit("pulley_radius");
            reveal_strlit("pulley_runout_m");
            lemma_word_key(k);
            lemma_clean_unquoted(t);
            lemma_kv_line(st, k, t, VenueDialect::Gui);
            lemma_fold_cons(st, kv(k, t), Seq::<Seq<char>>::empty(), VenueDialect::Gui);
            assert(seq![kv(k, t)] + Seq::<Seq<char>>::empty() =~= seq![kv(k, t)]);
            assert("pulley_runout_m"@ != "pulley_radius"@);
        },
    }
}

/// An anchor block: the open block is closed, and a new anchor draft
/// holds the anchor's point and pulley values.
pub proof fn lemma_anchor_block(st: ParserSpec, a: AnchorOutSpec, i: nat)
    requires
        clean_anchor(a),
        flush_spec(st) is Ok,
    ensures
        fold_lines(st, anchor_lines(a, i), VenueDialect::Gui) == (
            ParserSpec {
                doc: with_numbers(flush_spec(st)->Ok_0.doc, anchor_numbers(a)),
                draft: Some(full_draft(a.exit)),
                kind: BlockKind::Anchor,
                draft_pulley_radius: a.pulley_radius,
                draft_runout: a.pulley_runout_m,
                in_home: false,
            },
            None::<Seq<char>>,
        ),
{
    let d = VenueDialect::Gui;
    let s0 = flush_spec(st)->Ok_0;
    let hdr = "[[anchors]]"@;
    let com = "# cable "@ + decimal(i);
    reveal_strlit("# cable ");
    reveal_strlit("[[anchors]]");
    lemma_header_content(hdr);
    lemma_comment_content(com);
    let h = ParserSpec {
        draft: Some(empty_draft()),
        kind: BlockKind::Anchor,
        in_home: false,
        draft_pulley_radius: None,
        draft_runout: None,
        ..s0
    };
    assert(venue_line(st, hdr, d) == Ok::<ParserSpec, Seq<char>>(h));
    assert(venue_line(h, Seq::<char>::empty(), d) == Ok::<ParserSpec, Seq<char>>(h));
    let p0 = seq![hdr, com];
    assert(p0 =~= seq![hdr] + (seq![com] + Seq::<Seq<char>>::empty()));
    lemma_fold_cons(st, hdr, seq![com] + Seq::<Seq<char>>::empty(), d);
    lemma_fold_cons(h, com, Seq::<Seq<char>>::empty(), d);
    assert(fold_lines(st, p0, d) == (h, None::<Seq<char>>));
    let p1 = point_lines("x"@, "y"@, "z"@, a.exit);
    lemma_block_point(h, a.exit, d);
    let h1 = ParserSpec {
        doc: noted(noted(noted(h.doc, a.exit.x), a.exit.y), a.exit.z),
        draft: Some(full_draft(a.exit)),
        ..h
    };
    lemma_fold_then(st, p0, p1, h, (h1, None), d);
    let p2 = opt_line("pulley_radius"@, a.pulley_radius);
    lemma_anchor_opt_key(h1, "pulley_radius"@, a.pulley_radius, true);
    let h2 = match a.pulley_radius {
        None => h1,
        Some(t) => ParserSpec { doc: noted(h1.doc, t), draft_pulley_radius: Some(t), ..h1 },
    };
    lemma_fold_then(st, p0 + p1, p2, h1, (h2, None), d);
    lemma_ignored_keys();
    let p3 = opt_point_lines("pulley_axis_x"@, "pulley_axis_y"@, "pulley_axis_z"@, a.pulley_axis);
    lemma_ignored_point(h2, "pulley_axis_x"@, "pulley_axis_y"@, "pulley_axis_z"@, a.pulley_axis, d);
    lemma_fold_then(st, p0 + p1 + p2, p3, h2, (h2, None), d);
    let p4 = opt_point_lines("winch_x"@, "winch_y"@, "winch_z"@, a.pulley_winch_exit);
    lemma_ignored_point(h2, "winch_x"@, "winch_y"@, "winch_z"@, a.pulley_winch_exit, d);
    lemma_fold_then(st, p0 + p1 + p2 + p3, p4, h2, (h2, None), d);
    let p5 = opt_line("pulley_runout_m"@, a.pulley_runout_m);
    lemma_anchor_opt_key(h2, "pulley_runout_m"@, a.pulley_runout_m, false);
    let h5 = match a.pulley_runout_m {
        None => h2,
        Some(t) => ParserSpec { doc: noted(h2.doc, t), draft_runout: Some(t), ..h2 },
    };
    lemma_fold_then(st, p0 + p1 + p2 + p3 + p4, p5, h2, (h5, None), d);
    let p6 = seq![Seq::<char>::empty()];
    lemma_blank_content();
    lemma_fold_cons(h5, Seq::<char>::empty(), Seq::<Seq<char>>::empty(), d);
    assert(p6 =~= seq![Seq::<char>::empty()] + Seq::<Seq<char>>::empty());
    lemma_fold_then(st, p0 + p1 + p2 + p3 + p4 + p5, p6, h5, (h5, None), d);
    assert(anchor_lines(a, i) == p0 + p1 + p2 + p3 + p4 + p5 + p6);
    assert(h5.doc.number_texts =~= s0.doc.number_texts + anchor_numbers(a));
}

/// An attachment block: the open block is closed, and a new attachment
/// draft holds the point.
pub proof fn lemma_attachment_block(st: ParserSpec, p: PointSpec, i: nat)
    requires
        clean_point(p),
        flush_spec(st) is Ok,
    ensures
        fold_lines(st, attachment_lines(p, i), VenueDialect::Gui) == ({
            let s0 = flush_spec(st)->Ok_0;
            (
                ParserSpec {
                    doc: with_numbers(s0.doc, seq![p.x, p.y, p.z]),
                    draft: Some(full_draft(p)),
                    kind: BlockKind::Attachment,
                    in_home: false,
                    ..s0
                },
                None::<Seq<char>>,
            )
        }),
{
    let d = VenueDialect::Gui;
    let s0 = flush_spec(st)->Ok_0;
    let hdr = "[[attachments]]"@;
    let com = "# body point "@ + decimal(i);
    reveal_strlit("# body point ");
    reveal_strlit("[[attachments]]");
    reveal_strlit("[[anchors]]");
    lemma_header_content(hdr);
    lemma_comment_content(com);
    let h = ParserSpec {
        draft: Some(empty_draft()),
        kind: BlockKind::Attachment,
        in_home: false,
        ..s0
    };
    assert(hdr != "[[anchors]]"@);
    assert(venue_line(st, hdr, d) == Ok::<ParserSpec, Seq<char>>(h));
    assert(venue_line(h, Seq::<char>::empty(), d) == Ok::<ParserSpec, Seq<char>>(h));
    let p0 = seq![hdr, com];
    assert(p0 =~= seq![hdr] + (seq![com] + Seq::<Seq<char>>::empty()));
    lemma_fold_cons(st, hdr, seq![com] + Seq::<Seq<char>>::empty(), d);
    lemma_fold_cons(h, com, Seq::<Seq<char>>::empty(), d);
    let p1 = point_lines("x"@, "y"@, "z"@, p);
    lemma_block_point(h, p, d);
    let h1 = ParserSpec {
        doc: noted(noted(noted(h.doc, p.x), p.y), p.z),
        draft: Some(full_draft(p)),
        ..h
    };
    lemma_fold_then(st, p0, p1, h, (h1, None), d);
    let p2 = seq![Seq::<char>::empty()];
    lemma_blank_content();
    lemma_fold_cons(h1, Seq::<char>::empty(), Seq::<Seq<char>>::empty(), d);
    assert(p2 =~= seq![Seq::<char>::empty()] + Seq::<Seq<char>>::empty());
    lemma_fold_then(st, p0 + p1, p2, h1, (h1, None), d);
    assert(attachment_lines(p, i) == p0 + p1 + p2);
    assert(h1.doc.number_texts =~= s0.doc.number_texts + seq![p.x, p.y, p.z]);
}

/// What an anchor block leaves in the document once it is closed.
pub open spec fn anchor_spec_of(a: AnchorOutSpec) -> AnchorSpec {
    AnchorSpec { exit: a.exit, pulley_radius: a.pulley_radius, pulley_runout_m: a.pulley_runout_m }
}

pub open spec fn anchor_specs(av: Seq<AnchorOutSpec>) -> Seq<AnchorSpec> {
    av.map_values(|a: AnchorOutSpec| anchor_spec_of(a))
}

/// The numbers read in the first `k` anchor blocks.
pub open spec fn anchors_numbers(av: Seq<AnchorOutSpec>, k: int) -> Seq<Seq<char>>
    decreases k,
{
    if k <= 0 {
        seq![]
    } else {
        anchors_numbers(av, k - 1) + anchor_numbers(av[k - 1])
    }
}

/// The reader's state after the first `k` anchor blocks, from a document
/// `base` with no anchors and no open block.
pub open spec fn after_anchors(base: VenueSpec, av: Seq<AnchorOutSpec>, k: int) -> ParserSpec {
    if k <= 0 {
        ParserSpec {
            doc: base,
            draft: None,
            kind: BlockKind::Other,
            draft_pulley_radius: None,
            draft_runout: None,
            in_home: false,
        }
    } else {
        ParserSpec {
            doc: VenueSpec {
                anchors: anchor_specs(av.take(k - 1)),
                number_texts: base.number_texts + anchors_numbers(av, k),
                ..base
            },
            draft: Some(full_draft(av[k - 1].exit)),
            kind: BlockKind::Anchor,
            draft_pulley_radius: av[k - 1].pulley_radius,
            draft_runout: av[k - 1].pulley_runout_m,
            in_home: false,
        }
    }
}

/// The anchor blocks are read one after another.
pub proof fn lemma_anchor_blocks(base: VenueSpec, av: Seq<AnchorOutSpec>, k: int)
    requires
        0 <= k <= av.len(),
        base.anchors.len() == 0,
        forall|j: int| 0 <= j < av.len() ==> clean_anchor(#[trigger] av[j]),
    ensures
        fold_lines(after_anchors(base, av, 0), anchors_lines(av, k), VenueDialect::Gui) == (
            after_anchors(base, av, k),
            None::<Seq<char>>,
        ),
    decreases k,
{
    let d = VenueDialect::Gui;
    let st0 = after_anchors(base, av, 0);
    if k == 0 {
        assert(anchors_lines(av, 0) =~= Seq::<Seq<char>>::empty());
    } else {
        lemma_anchor_blocks(base, av, k - 1);
        let prev = after_anchors(base, av, k - 1);
        assert(clean_anchor(av[k - 1]));
        assert(flush_spec(prev) is Ok);
        lemma_anchor_block(prev, av[k - 1], (k - 1) as nat);
        let s0 = flush_spec(prev)->Ok_0;
        if k == 1 {
            assert(s0 == prev);
            assert(av.take(0) =~= Seq::<AnchorOutSpec>::empty());
            assert(anchor_specs(av.take(0)) =~= Seq::<AnchorSpec>::empty());
            assert(base.anchors =~= anchor_specs(av.take(0)));
        } else {
            assert(av.take(k - 2).push(av[k - 2]) =~= av.take(k - 1));
            assert(anchor_specs(av.take(k - 2)).push(anchor_spec_of(av[k - 2])) =~= anchor_specs(av.take(k - 1)));
        }
        assert(anchors_numbers(av, k - 1) + anchor_numbers(av[k - 1]) == anchors_numbers(av, k));
        assert(base.number_texts + anchors_numbers(av, k - 1) + anchor_numbers(av[k - 1]) =~= base.number_texts
            + anchors_numbers(av, k));
        lemma_fold_then(
            st0,
            anchors_lines(av, k - 1),
            anchor_lines(av[k - 1], (k - 1) as nat),
            prev,
            (after_anchors(base, av, k), None),
            d,
        );
    }
}

/// The numbers read in the first `k` attachment blocks.
pub open spec fn atts_numbers(tv: Seq<PointSpec>, k: int) -> Seq<Seq<char>>
    decreases k,
{
    if k <= 0 {
        seq![]
    } else {
        atts_numbers(tv, k - 1) + seq![tv[k - 1].x, tv[k - 1].y, tv[k - 1].z]
    }
}

/// The reader's state after the first `k` attachment blocks, from `start`
/// (whose open block, once closed, gives `f`).
pub open spec fn after_atts(start: ParserSpec, f: ParserSpec, tv: Seq<PointSpec>, k: int) -> ParserSpec {
    if k <= 0 {
        start
    } else {
        ParserSpec {
            doc: VenueSpec {
                attachments: tv.take(k - 1),
                number_texts: f.doc.number_texts + atts_numbers(tv, k),
                ..f.doc
            },
            draft: Some(full_draft(tv[k - 1])),
            kind: BlockKind::Attachment,
            in_home: false,
            ..f
        }
    }
}

/// The attachment blocks are read one after another.
pub proof fn lemma_attachment_blocks(start: ParserSpec, tv: Seq<PointSpec>, k: int)
    requires
        0 <= k <= tv.len(),
        flush_spec(start) is Ok,
        flush_spec(start)->Ok_0.doc.attachments.len() == 0,
        flush_spec(start)->Ok_0.draft is None,
        forall|j: int| 0 <= j < tv.len() ==> clean_point(#[trigger] tv[j]),
    ensures
        fold_lines(start, attachments_lines(tv, k), VenueDialect::Gui) == (
            after_atts(start, flush_spec(start)->Ok_0, tv, k),
            None::<Seq<char>>,
        ),
    decreases k,
{
    let d = VenueDialect::Gui;
    let f = flush_spec(start)->Ok_0;
    if k == 0 {
        assert(attachments_lines(tv, 0) =~= Seq::<Seq<char>>::empty());
    } else {
        lemma_attachment_blocks(start, tv, k - 1);
        let prev = after_atts(start, f, tv, k - 1);
        assert(clean_point(tv[k - 1]));
        assert(flush_spec(prev) is Ok);
        lemma_attachment_block(prev, tv[k - 1], (k - 1) as nat);
        let s0 = flush_spec(prev)->Ok_0;
        if k == 1 {
            assert(s0 == f);
            assert(tv.take(0) =~= Seq::<PointSpec>::empty());
            assert(f.doc.attachments =~= tv.take(0));
            assert(atts_numbers(tv, 1) =~= seq![tv[0].x, tv[0].y, tv[0].z]);
            assert(f.doc.number_texts + seq![tv[0].x, tv[0].y, tv[0].z] =~= f.doc.number_texts + atts_numbers(tv, 1));
        } else {
            assert(tv.take(k - 2).push(tv[k - 2]) =~= tv.take(k - 1));
            assert(f.doc.number_texts + atts_numbers(tv, k - 1) + seq![tv[k - 1].x, tv[k - 1].y, tv[k - 1].z]
                =~= f.doc.number_texts + atts_numbers(tv, k));
        }
        lemma_fold_then(
            start,
            attachments_lines(tv, k - 1),
            attachment_lines(tv[k - 1], (k - 1) as nat),
            prev,
            (after_atts(start, f, tv, k), None),
            d,
        );
    }
}

/// The `[home]` block: the open block is closed, and the home coordinates
/// are set.
pub proof fn lemma_home_block(st: ParserSpec, h: PointSpec)
    requires
        clean_point(h),
        flush_spec(st) is Ok,
        flush_spec(st)->Ok_0.draft is None,
    ensures
        fold_lines(
            st,
            seq!["[home]"@] + point_lines("x"@, "y"@, "z"@, h) + seq![Seq::<char>::empty()],
            VenueDialect::Gui,
        ) == ({
            let g = flush_spec(st)->Ok_0;
            (
                ParserSpec {
                    doc: VenueSpec {
                        home_x: Some(h.x),
                        home_y: Some(h.y),
                        home_z: Some(h.z),
                        ..with_numbers(g.doc, seq![h.x, h.y, h.z])
                    },
                    kind: BlockKind::Other,
                    in_home: true,
                    ..g
                },
                None::<Seq<char>>,
            )
        }),
{
    let d = VenueDialect::Gui;
    let g = flush_spec(st)->Ok_0;
    let hdr = "[home]"@;
    reveal_strlit("[home]");
    reveal_strlit("[[anchors]]");
    reveal_strlit("[[attachments]]");
    lemma_header_content(hdr);
    let s1 = ParserSpec { kind: BlockKind::Other, in_home: true, ..g };
    assert(hdr != "[[anchors]]"@ && hdr != "[[attachments]]"@);
    assert(venue_line(st, hdr, d) == Ok::<ParserSpec, Seq<char>>(s1));
    lemma_fold_cons(st, hdr, Seq::<Seq<char>>::empty(), d);
    assert(seq![hdr] =~= seq![hdr] + Seq::<Seq<char>>::empty());
    reveal_strlit("x");
    reveal_strlit("y");
    reveal_strlit("z");
    lemma_word_key("x"@);
    lemma_word_key("y"@);
    lemma_word_key("z"@);
    lemma_clean_unquoted(h.x);
    lemma_clean_unquoted(h.y);
    lemma_clean_unquoted(h.z);
    let kx = kv("x"@, h.x);
    let ky = kv("y"@, h.y);
    let kz = kv("z"@, h.z);
    lemma_kv_line(s1, "x"@, h.x, d);
    let s2 = ParserSpec { doc: VenueSpec { home_x: Some(h.x), ..noted(s1.doc, h.x) }, ..s1 };
    assert(venue_line(s1, line_content(kx), d) == Ok::<ParserSpec, Seq<char>>(s2));
    lemma_kv_line(s2, "y"@, h.y, d);
    let s3 = ParserSpec { doc: VenueSpec { home_y: Some(h.y), ..noted(s2.doc, h.y) }, ..s2 };
    assert("y"@ != "x"@);
    assert(venue_line(s2, line_content(ky), d) == Ok::<ParserSpec, Seq<char>>(s3));
    lemma_kv_line(s3, "z"@, h.z, d);
    let s4 = ParserSpec { doc: VenueSpec { home_z: Some(h.z), ..noted(s3.doc, h.z) }, ..s3 };
    assert("z"@ != "x"@ && "z"@ != "y"@);
    assert(venue_line(s3, line_content(kz), d) == Ok::<ParserSpec, Seq<char>>(s4));
    let pts = point_lines("x"@, "y"@, "z"@, h);
    assert(pts =~= seq![kx] + (seq![ky] + (seq![kz] + Seq::<Seq<char>>::empty())));
    lemma_fold_cons(s1, kx, seq![ky] + (seq![kz] + Seq::<Seq<char>>::empty()), d);
    lemma_fold_cons(s2, ky, seq![kz] + Seq::<Seq<char>>::empty(), d);
    lemma_fold_cons(s3, kz, Seq::<Seq<char>>::empty(), d);
    lemma_fold_then(st, seq![hdr], pts, s1, (s4, None), d);
    lemma_blank_content();
    lemma_fold_cons(s4, Seq::<char>::empty(), Seq::<Seq<char>>::empty(), d);
    assert(seq![Seq::<char>::empty()] =~= seq![Seq::<char>::empty()] + Seq::<Seq<char>>::empty());
    lemma_fold_then(st, seq![hdr] + pts, seq![Seq::<char>::empty()], s4, (s4, None), d);
    assert(s4.doc.number_texts =~= g.doc.number_texts + seq![h.x, h.y, h.z]);
}

/// The numbers among the cable model lines.
pub open spec fn model_numbers(m: CableModelOutSpec) -> Seq<Seq<char>> {
    (if m.model == "pulley"@ {
        seq![m.pulley_radius]
    } else {
        Seq::<Seq<char>>::empty()
    }) + (if m.model == "sag"@ {
        seq![m.sag_mu, m.sag_ea]
    } else {
        Seq::<Seq<char>>::empty()
    })
}

/// Cable model texts that the reader takes as written.
pub open spec fn clean_model(m: CableModelOutSpec) -> bool {
    &&& clean_value(m.model)
    &&& m.model == "pulley"@ ==> clean_value(m.pulley_radius)
    &&& m.model == "sag"@ ==> clean_value(m.sag_mu) && clean_value(m.sag_ea)
}

/// A top-level numeric key line sets that field.
proof fn lemma_top_number(st: ParserSpec, k: Seq<char>, v: Seq<char>)
    requires
        st.draft is None,
        !st.in_home,
        clean_value(v),
        k == "pulley_radius"@ || k == "sag_mu"@ || k == "sag_ea"@,
    ensures
        fold_lines(st, seq![kv(k, v)], VenueDialect::Gui) == (
            ParserSpec {
                doc: if k == "pulley_radius"@ {
                    VenueSpec { pulley_radius: Some(v), ..noted(st.doc, v) }
                } else if k == "sag_mu"@ {
                    VenueSpec { sag_mu: Some(v), ..noted(st.doc, v) }
                } else {
                    VenueSpec { sag_ea: Some(v), ..noted(st.doc, v) }
                },
                ..st
            },
            None::<Seq<char>>,
        ),
{
    reveal_strlit("preset");
    reveal_strlit("width");
    reveal_strlit("depth");
    reveal_strlit("height");
    reveal_strlit("n");
    reveal_strlit("radius");
    reveal_strlit("point_mass");
    reveal_strlit("cable_model");
    reveal_strlit("pulley_radius");
    reveal_strlit("sag_mu");
    reveal_strlit("sag_ea");
    lemma_word_key(k);
    lemma_clean_unquoted(v);
    lemma_kv_line(st, k, v, VenueDialect::Gui);
    assert("sag_mu"@[0] != "preset"@[0] && "sag_mu"@[0] != "height"@[0] && "sag_mu"@[0] != "radius"@[0]);
    assert("sag_ea"@[0] != "preset"@[0] && "sag_ea"@[0] != "height"@[0] && "sag_ea"@[0] != "radius"@[0]);
    assert("sag_ea"@[4] != "sag_mu"@[4]);
    lemma_fold_cons(st, kv(k, v), Seq::<Seq<char>>::empty(), VenueDialect::Gui);
    assert(seq![kv(k, v)] =~= seq![kv(k, v)] + Seq::<Seq<char>>::empty());
}

/// The cable model lines, read in the home block: the model name leaves the
/// home block, then the model's parameters are set.
pub proof fn lemma_model_lines(st: ParserSpec, m: CableModelOutSpec)
    requires
        st.draft is None,
        st.in_home,
        clean_model(m),
    ensures
        fold_lines(st, model_lines(m), VenueDialect::Gui) == (
            ParserSpec {
                doc: VenueSpec {
                    cable_model: m.model,
                    pulley_radius: if m.model == "pulley"@ {
                        Some(m.pulley_radius)
                    } else {
                        st.doc.pulley_radius
                    },
                    sag_mu: if m.model == "sag"@ {
                        Some(m.sag_mu)
                    } else {
                        st.doc.sag_mu
                    },
                    sag_ea: if m.model == "sag"@ {
                        Some(m.sag_ea)
                    } else {
                        st.doc.sag_ea
                    },
                    number_texts: st.doc.number_texts + model_numbers(m),
                    ..st.doc
                },
                in_home: false,
                ..st
            },
            None::<Seq<char>>,
        ),
{
    let d = VenueDialect::Gui;
    reveal_strlit("x");
    reveal_strlit("y");
    reveal_strlit("z");
    reveal_strlit("preset");
    reveal_strlit("width");
    reveal_strlit("depth");
    reveal_strlit("height");
    reveal_strlit("n");
    reveal_strlit("radius");
    reveal_strlit("point_mass");
    reveal_strlit("cable_model");
    reveal_strlit("pulley");
    reveal_strlit("sag");
    lemma_word_key("cable_model"@);
    lemma_quoted(m.model);
    let q = "\""@ + m.model + "\""@;
    lemma_kv_line(st, "cable_model"@, q, d);
    let s1 = ParserSpec { doc: VenueSpec { cable_model: m.model, ..st.doc }, in_home: false, ..st };
    assert(venue_line(st, line_content(kv("cable_model"@, q)), d) == Ok::<ParserSpec, Seq<char>>(s1));
    let l0 = seq![kv("cable_model"@, q)];
    lemma_fold_cons(st, kv("cable_model"@, q), Seq::<Seq<char>>::empty(), d);
    assert(l0 =~= l0 + Seq::<Seq<char>>::empty());
    let l1 = if m.model == "pulley"@ {
        seq![kv("pulley_radius"@, m.pulley_radius)]
    } else {
        Seq::<Seq<char>>::empty()
    };
    let s2 = if m.model == "pulley"@ {
        ParserSpec {
            doc: VenueSpec { pulley_radius: Some(m.pulley_radius), ..noted(s1.doc, m.pulley_radius) },
            ..s1
        }
    } else {
        s1
    };
    if m.model == "pulley"@ {
        lemma_top_number(s1, "pulley_radius"@, m.pulley_radius);
    }
    assert(fold_lines(s1, l1, d) == (s2, None::<Seq<char>>));
    lemma_fold_then(st, l0, l1, s1, (s2, None), d);
    let l2 = if m.model == "sag"@ {
        seq![kv("sag_mu"@, m.sag_mu), kv("sag_ea"@, m.sag_ea)]
    } else {
        Seq::<Seq<char>>::empty()
    };
    let s3 = if m.model == "sag"@ {
        ParserSpec { doc: VenueSpec { sag_mu: Some(m.sag_mu), ..noted(s2.doc, m.sag_mu) }, ..s2 }
    } else {
        s2
    };
    let s4 = if m.model == "sag"@ {
        ParserSpec { doc: VenueSpec { sag_ea: Some(m.sag_ea), ..noted(s3.doc, m.sag_ea) }, ..s3 }
    } else {
        s3
    };
    if m.model == "sag"@ {
        assert("sag"@ != "pulley"@);
        reveal_strlit("sag_mu");
        reveal_strlit("sag_ea");
        reveal_strlit("pulley_radius");
        assert("sag_ea"@[4] != "sag_mu"@[4]);
        assert("sag_mu"@ != "pulley_radius"@ && "sag_ea"@ != "pulley_radius"@ && "sag_ea"@ != "sag_mu"@);
        lemma_top_number(s2, "sag_mu"@, m.sag_mu);
        lemma_top_number(s3, "sag_ea"@, m.sag_ea);
        assert(l2 =~= seq![kv("sag_mu"@, m.sag_mu)] + seq![kv("sag_ea"@, m.sag_ea)]);
        lemma_fold_then(s2, seq![kv("sag_mu"@, m.sag_mu)], seq![kv("sag_ea"@, m.sag_ea)], s3, (s4, None), d);
    }
    assert(fold_lines(s2, l2, d) == (s4, None::<Seq<char>>));
    lemma_fold_then(st, l0 + l1, l2, s2, (s4, None), d);
    assert(model_lines(m) == l0 + l1 + l2);
    assert(s4.doc.number_texts =~= st.doc.number_texts + model_numbers(m));
}

/// The first lines: `point_mass`, then a blank line.
pub proof fn lemma_head_lines(pm: bool)
    ensures
        fold_lines(
            initial_parser(),
            seq![kv("point_mass"@, bool_text(pm)), Seq::<char>::empty()],
            VenueDialect::Gui,
        ) == (
            ParserSpec {
                doc: VenueSpec { point_mass: pm, ..initial_parser().doc },
                ..initial_parser()
            },
            None::<Seq<char>>,
        ),
{
    let d = VenueDialect::Gui;
    let st = initial_parser();
    reveal_strlit("preset");
    reveal_strlit("width");
    reveal_strlit("depth");
    reveal_strlit("height");
    reveal_strlit("n");
    reveal_strlit("radius");
    reveal_strlit("point_mass");
    reveal_strlit("true");
    reveal_strlit("false");
    lemma_word_key("point_mass"@);
    let b = bool_text(pm);
    lemma_word_key(b);
    assert(clean_value(b));
    lemma_clean_unquoted(b);
    lemma_kv_line(st, "point_mass"@, b, d);
    assert("true"@ != "false"@);
    let s1 = ParserSpec { doc: VenueSpec { point_mass: pm, ..st.doc }, ..st };
    assert(venue_line(st, line_content(kv("point_mass"@, b)), d) == Ok::<ParserSpec, Seq<char>>(s1));
    lemma_blank_content();
    let ls = seq![kv("point_mass"@, b), Seq::<char>::empty()];
    assert(ls =~= seq![kv("point_mass"@, b)] + (seq![Seq::<char>::empty()] + Seq::<Seq<char>>::empty()));
    lemma_fold_cons(st, kv("point_mass"@, b), seq![Seq::<char>::empty()] + Seq::<Seq<char>>::empty(), d);
    lemma_fold_cons(s1, Seq::<char>::empty(), Seq::<Seq<char>>::empty(), d);
}

pub open spec fn all_no_newline(ls: Seq<Seq<char>>) -> bool {
    forall|i: int| 0 <= i < ls.len() ==> no_newline(#[trigger] ls[i])
}

proof fn lemma_no_newline_concat(a: Seq<Seq<char>>, b: Seq<Seq<char>>)
    requires
        all_no_newline(a),
        all_no_newline(b),
    ensures
        all_no_newline(a + b),
{
    assert forall|i: int| 0 <= i < (a + b).len() implies no_newline(#[trigger] (a + b)[i]) by {
        if i < a.len() {
            assert((a + b)[i] == a[i]);
        } else {
            assert((a + b)[i] == b[i - a.len()]);
        }
    }
}

proof fn lemma_point_no_newline(kx: Seq<char>, ky: Seq<char>, kz: Seq<char>, p: PointSpec)
    requires
        key_token(kx),
        key_token(ky),
        key_token(kz),
        clean_point(p),
    ensures
        all_no_newline(point_lines(kx, ky, kz, p)),
{
    lemma_kv_no_newline(kx, p.x);
    lemma_kv_no_newline(ky, p.y);
    lemma_kv_no_newline(kz, p.z);
}

/// A numbered comment line has no newline in it.
proof fn lemma_numbered_no_newline(prefix: Seq<char>, i: nat)
    requires
        no_newline(prefix),
    ensures
        no_newline(prefix + decimal(i)),
{
    lemma_decimal_digits(i);
    let c = prefix + decimal(i);
    assert forall|j: int| 0 <= j < c.len() implies c[j] != '\n' by {
        if j >= prefix.len() {
            assert(c[j] == decimal(i)[j - prefix.len()]);
            assert(is_digit(decimal(i)[j - prefix.len()]));
        }
    }
}

proof fn lemma_anchor_lines_no_newline(a: AnchorOutSpec, i: nat)
    requires
        clean_anchor(a),
    ensures
        all_no_newline(anchor_lines(a, i)),
{
    reveal_strlit("[[anchors]]");
    reveal_strlit("# cable ");
    reveal_strlit("x");
    reveal_strlit("y");
    reveal_strlit("z");
    reveal_strlit("pulley_radius");
    reveal_strlit("pulley_runout_m");
    lemma_word_key("x"@);
    lemma_word_key("y"@);
    lemma_word_key("z"@);
    lemma_word_key("pulley_radius"@);
    lemma_word_key("pulley_runout_m"@);
    lemma_ignored_keys();
    lemma_header_content("[[anchors]]"@);
    lemma_numbered_no_newline("# cable "@, i);
    let p0 = seq!["[[anchors]]"@, "# cable "@ + decimal(i)];
    let p1 = point_lines("x"@, "y"@, "z"@, a.exit);
    let p2 = opt_line("pulley_radius"@, a.pulley_radius);
    let p3 = opt_point_lines("pulley_axis_x"@, "pulley_axis_y"@, "pulley_axis_z"@, a.pulley_axis);
    let p4 = opt_point_lines("winch_x"@, "winch_y"@, "winch_z"@, a.pulley_winch_exit);
    let p5 = opt_line("pulley_runout_m"@, a.pulley_runout_m);
    let p6 = seq![Seq::<char>::empty()];
    assert(all_no_newline(p0));
    lemma_point_no_newline("x"@, "y"@, "z"@, a.exit);
    match a.pulley_radius {
        Some(t) => {
            lemma_kv_no_newline("pulley_radius"@, t);
        },
        None => {},
    }
    assert(all_no_newline(p2));
    match a.pulley_axis {
        Some(q) => {
            lemma_point_no_newline("pulley_axis_x"@, "pulley_axis_y"@, "pulley_axis_z"@, q);
        },
        None => {},
    }
    assert(all_no_newline(p3));
    match a.pulley_winch_exit {
        Some(q) => {
            lemma_point_no_newline("winch_x"@, "winch_y"@, "winch_z"@, q);
        },
        None => {},
    }
    assert(all_no_newline(p4));
    match a.pulley_runout_m {
        Some(t) => {
            lemma_kv_no_newline("pulley_runout_m"@, t);
        },
        None => {},
    }
    assert(all_no_newline(p5));
    assert(all_no_newline(p6));
    lemma_no_newline_concat(p0, p1);
    lemma_no_newline_concat(p0 + p1, p2);
    lemma_no_newline_concat(p0 + p1 + p2, p3);
    lemma_no_newline_concat(p0 + p1 + p2 + p3, p4);
    lemma_no_newline_concat(p0 + p1 + p2 + p3 + p4, p5);
    lemma_no_newline_concat(p0 + p1 + p2 + p3 + p4 + p5, p6);
    assert(anchor_lines(a, i) == p0 + p1 + p2 + p3 + p4 + p5 + p6);
}

proof fn lemma_anchors_lines_no_newline(av: Seq<AnchorOutSpec>, k: int)
    requires
        0 <= k <= av.len(),
        forall|j: int| 0 <= j < av.len() ==> clean_anchor(#[trigger] av[j]),
    ensures
        all_no_newline(anchors_lines(av, k)),
    decreases k,
{
    if k > 0 {
        lemma_anchors_lines_no_newline(av, k - 1);
        assert(clean_anchor(av[k - 1]));
        lemma_anchor_lines_no_newline(av[k - 1], (k - 1) as nat);
        lemma_no_newline_concat(anchors_lines(av, k - 1), anchor_lines(av[k - 1], (k - 1) as nat));
    }
}

proof fn lemma_attachments_lines_no_newline(tv: Seq<PointSpec>, k: int)
    requires
        0 <= k <= tv.len(),
        forall|j: int| 0 <= j < tv.len() ==> clean_point(#[trigger] tv[j]),
    ensures
        all_no_newline(attachments_lines(tv, k)),
    decreases k,
{
    if k > 0 {
        lemma_attachments_lines_no_newline(tv, k - 1);
        reveal_strlit("[[attachments]]");
        reveal_strlit("# body point ");
        reveal_strlit("x");
        reveal_strlit("y");
        reveal_strlit("z");
        lemma_word_key("x"@);
        lemma_word_key("y"@);
        lemma_word_key("z"@);
        lemma_header_content("[[attachments]]"@);
        lemma_numbered_no_newline("# body point "@, (k - 1) as nat);
        assert(clean_point(tv[k - 1]));
        lemma_point_no_newline("x"@, "y"@, "z"@, tv[k - 1]);
        let p0 = seq!["[[attachments]]"@, "# body point "@ + decimal((k - 1) as nat)];
        let p1 = point_lines("x"@, "y"@, "z"@, tv[k - 1]);
        let p2 = seq![Seq::<char>::empty()];
        assert(all_no_newline(p0));
        assert(all_no_newline(p2));
        lemma_no_newline_concat(p0, p1);
        lemma_no_newline_concat(p0 + p1, p2);
        assert(attachment_lines(tv[k - 1], (k - 1) as nat) == p0 + p1 + p2);
        lemma_no_newline_concat(attachments_lines(tv, k - 1), attachment_lines(tv[k - 1], (k - 1) as nat));
    }
}

proof fn lemma_model_lines_no_newline(m: CableModelOutSpec)
    requires
        clean_model(m),
    ensures
        all_no_newline(model_lines(m)),
{
    reveal_strlit("cable_model");
    reveal_strlit("pulley_radius");
    reveal_strlit("sag_mu");
    reveal_strlit("sag_ea");
    reveal_strlit("\"");
    lemma_word_key("cable_model"@);
    lemma_word_key("pulley_radius"@);
    lemma_word_key("sag_mu"@);
    lemma_word_key("sag_ea"@);
    let q = "\""@ + m.model + "\""@;
    assert forall|j: int| 0 <= j < q.len() implies !is_ws(#[trigger] q[j]) by {
        if 0 < j < q.len() - 1 {
            assert(q[j] == m.model[j - 1]);
        }
    }
    lemma_kv_no_newline("cable_model"@, q);
    if m.model == "pulley"@ {
        lemma_kv_no_newline("pulley_radius"@, m.pulley_radius);
    }
    if m.model == "sag"@ {
        lemma_kv_no_newline("sag_mu"@, m.sag_mu);
        lemma_kv_no_newline("sag_ea"@, m.sag_ea);
    }
}

/// What reading back a written venue file gives: exactly what was
/// written, with the numbers read in writing order.
pub open spec fn read_back_doc(
    av: Seq<AnchorOutSpec>,
    tv: Seq<PointSpec>,
    pm: bool,
    home: PointSpec,
    m: CableModelOutSpec,
) -> VenueSpec {
    VenueSpec {
        point_mass: pm,
        anchors: anchor_specs(av),
        attachments: tv,
        home_x: Some(home.x),
        home_y: Some(home.y),
        home_z: Some(home.z),
        cable_model: m.model,
        pulley_radius: if m.model == "pulley"@ {
            Some(m.pulley_radius)
        } else {
            None
        },
        sag_mu: if m.model == "sag"@ {
            Some(m.sag_mu)
        } else {
            None
        },
        sag_ea: if m.model == "sag"@ {
            Some(m.sag_ea)
        } else {
            None
        },
        number_texts: anchors_numbers(av, av.len() as int) + atts_numbers(tv, tv.len() as int) + seq![
            home.x,
            home.y,
            home.z,
        ] + model_numbers(m),
        ..initial_parser().doc
    }
}

/// What is written is read back: the GUI reader, given a venue file written
/// from anchors, attachments, the point-mass flag, a home point and a cable
/// model whose texts are clean (nonempty, without whitespace, `#` or `"`),
/// reports no error and reads exactly the anchors (with their pulley radius
/// and runout), the attachments, the flag, the home point, the model name
/// and the model's parameters that were written; the other keys keep their
/// defaults.
pub proof fn lemma_written_venue_reads_back(
    av: Seq<AnchorOutSpec>,
    tv: Seq<PointSpec>,
    pm: bool,
    home: PointSpec,
    m: CableModelOutSpec,
)
    requires
        forall|j: int| 0 <= j < av.len() ==> clean_anchor(#[trigger] av[j]),
        forall|j: int| 0 <= j < tv.len() ==> clean_point(#[trigger] tv[j]),
        clean_point(home),
        clean_model(m),
    ensures
        venue_scan_spec(join_lines(venue_lines(av, tv, pm, home, m)), VenueDialect::Gui) == (
            read_back_doc(av, tv, pm, home, m),
            None::<Seq<char>>,
        ),
{
    let d = VenueDialect::Gui;
    let n = av.len() as int;
    let t = tv.len() as int;
    let q0 = seq![kv("point_mass"@, bool_text(pm)), Seq::<char>::empty()];
    let q1 = anchors_lines(av, n);
    let q2 = attachments_lines(tv, t);
    let q3 = seq!["[home]"@] + point_lines("x"@, "y"@, "z"@, home) + seq![Seq::<char>::empty()];
    let q4 = model_lines(m);
    let ls = venue_lines(av, tv, pm, home, m);
    assert(ls =~= q0 + q1 + q2 + q3 + q4);
    // Every line is a line of its own.
    reveal_strlit("point_mass");
    reveal_strlit("true");
    reveal_strlit("false");
    reveal_strlit("x");
    reveal_strlit("y");
    reveal_strlit("z");
    lemma_word_key("point_mass"@);
    lemma_word_key(bool_text(pm));
    lemma_kv_no_newline("point_mass"@, bool_text(pm));
    assert(all_no_newline(q0));
    lemma_anchors_lines_no_newline(av, n);
    lemma_attachments_lines_no_newline(tv, t);
    lemma_word_key("x"@);
    lemma_word_key("y"@);
    lemma_word_key("z"@);
    lemma_header_content("[home]"@);
    lemma_point_no_newline("x"@, "y"@, "z"@, home);
    lemma_no_newline_concat(seq!["[home]"@], point_lines("x"@, "y"@, "z"@, home));
    lemma_no_newline_concat(seq!["[home]"@] + point_lines("x"@, "y"@, "z"@, home), seq![Seq::<char>::empty()]);
    lemma_model_lines_no_newline(m);
    lemma_no_newline_concat(q0, q1);
    lemma_no_newline_concat(q0 + q1, q2);
    lemma_no_newline_concat(q0 + q1 + q2, q3);
    lemma_no_newline_concat(q0 + q1 + q2 + q3, q4);
    lemma_run_join(initial_parser(), ls, d);
    // The head.
    lemma_head_lines(pm);
    let base = VenueSpec { point_mass: pm, ..initial_parser().doc };
    let sh = ParserSpec { doc: base, ..initial_parser() };
    assert(sh == after_anchors(base, av, 0));
    // The anchors.
    lemma_anchor_blocks(base, av, n);
    let a = after_anchors(base, av, n);
    lemma_fold_then(initial_parser(), q0, q1, sh, (a, None), d);
    let f = flush_spec(a)->Ok_0;
    if n > 0 {
        assert(av.take(n - 1).push(av[n - 1]) =~= av);
        assert(anchor_specs(av.take(n - 1)).push(anchor_spec_of(av[n - 1])) =~= anchor_specs(av));
        assert(f.doc.anchors == anchor_specs(av));
    } else {
        assert(anchor_specs(av) =~= Seq::<AnchorSpec>::empty());
        assert(anchors_numbers(av, 0) =~= Seq::<Seq<char>>::empty());
    }
    assert(f.doc.number_texts =~= anchors_numbers(av, n));
    // The attachments.
    lemma_attachment_blocks(a, tv, t);
    let at = after_atts(a, f, tv, t);
    lemma_fold_then(initial_parser(), q0 + q1, q2, a, (at, None), d);
    let g = flush_spec(at)->Ok_0;
    if t > 0 {
        assert(tv.take(t - 1).push(tv[t - 1]) =~= tv);
        assert(g.doc.attachments == tv);
    } else {
        assert(tv =~= Seq::<PointSpec>::empty());
        assert(atts_numbers(tv, 0) =~= Seq::<Seq<char>>::empty());
    }
    assert(g.doc.number_texts =~= anchors_numbers(av, n) + atts_numbers(tv, t));
    assert(g.draft is None);
    // The home block.
    lemma_home_block(at, home);
    let hb = ParserSpec {
        doc: VenueSpec {
            home_x: Some(home.x),
            home_y: Some(home.y),
            home_z: Some(home.z),
            ..with_numbers(g.doc, seq![home.x, home.y, home.z])
        },
        kind: BlockKind::Other,
        in_home: true,
        ..g
    };
    lemma_fold_then(initial_parser(), q0 + q1 + q2, q3, at, (hb, None), d);
    // The cable model.
    lemma_model_lines(hb, m);
    let mb = ParserSpec {
        doc: VenueSpec {
            cable_model: m.model,
            pulley_radius: if m.model == "pulley"@ {
                Some(m.pulley_radius)
            } else {
                hb.doc.pulley_radius
            },
            sag_mu: if m.model == "sag"@ {
                Some(m.sag_mu)
            } else {
                hb.doc.sag_mu
            },
            sag_ea: if m.model == "sag"@ {
                Some(m.sag_ea)
            } else {
                hb.doc.sag_ea
            },
            number_texts: hb.doc.number_texts + model_numbers(m),
            ..hb.doc
        },
        in_home: false,
        ..hb
    };
    lemma_fold_then(initial_parser(), q0 + q1 + q2 + q3, q4, hb, (mb, None), d);
    assert(flush_spec(mb) == Ok::<ParserSpec, Seq<char>>(mb));
    assert(mb.doc.number_texts =~= read_back_doc(av, tv, pm, home, m).number_texts);
    assert(mb.doc == read_back_doc(av, tv, pm, home, m));
}


/// A `rect` venue text, the preset and its three keys written one per line,
/// is read without error and resolves to the rectangle whose width, depth
/// and height are the texts given for `width`, `depth` and `height`.
pub proof fn lemma_rect_text_resolves(w: Seq<char>, dp: Seq<char>, h: Seq<char>, d: VenueDialect)
    requires
        clean_value(w),
        clean_value(dp),
        clean_value(h),
    ensures
        ({
            let text = join_lines(
                seq![kv("preset"@, "\""@ + "rect"@ + "\""@), kv("width"@, w), kv("depth"@, dp), kv("height"@, h)],
            );
            let (doc, err) = venue_scan_spec(text, d);
            &&& err is None
            &&& resolve_spec(doc) == Ok::<ShapeSpec, Seq<char>>(ShapeSpec::Rect { width: w, depth: dp, height: h })
        }),
{
    reveal_strlit("preset");
    reveal_strlit("width");
    reveal_strlit("depth");
    reveal_strlit("height");
    reveal_strlit("rect");
    reveal_strlit("n");
    reveal_strlit("radius");
    reveal_strlit("point_mass");
    let st = initial_parser();
    let q = "\""@ + "rect"@ + "\""@;
    lemma_word_key("preset"@);
    lemma_word_key("width"@);
    lemma_word_key("depth"@);
    lemma_word_key("height"@);
    lemma_word_key("rect"@);
    assert(clean_value("rect"@));
    lemma_quoted("rect"@);
    lemma_clean_unquoted(w);
    lemma_clean_unquoted(dp);
    lemma_clean_unquoted(h);
    let l0 = kv("preset"@, q);
    let l1 = kv("width"@, w);
    let l2 = kv("depth"@, dp);
    let l3 = kv("height"@, h);
    lemma_kv_line(st, "preset"@, q, d);
    let s1 = ParserSpec { doc: VenueSpec { preset: "rect"@, ..st.doc }, ..st };
    assert(venue_line(st, line_content(l0), d) == Ok::<ParserSpec, Seq<char>>(s1));
    lemma_kv_line(s1, "width"@, w, d);
    let s2 = ParserSpec { doc: VenueSpec { width: Some(w), ..noted(s1.doc, w) }, ..s1 };
    assert("width"@ != "preset"@);
    assert(venue_line(s1, line_content(l1), d) == Ok::<ParserSpec, Seq<char>>(s2));
    lemma_kv_line(s2, "depth"@, dp, d);
    let s3 = ParserSpec { doc: VenueSpec { depth: Some(dp), ..noted(s2.doc, dp) }, ..s2 };
    assert("depth"@ != "preset"@ && "depth"@ != "width"@);
    assert(venue_line(s2, line_content(l2), d) == Ok::<ParserSpec, Seq<char>>(s3));
    lemma_kv_line(s3, "height"@, h, d);
    let s4 = ParserSpec { doc: VenueSpec { height: Some(h), ..noted(s3.doc, h) }, ..s3 };
    assert("height"@ != "preset"@ && "height"@ != "width"@ && "height"@ != "depth"@);
    assert(venue_line(s3, line_content(l3), d) == Ok::<ParserSpec, Seq<char>>(s4));
    let e = Seq::<Seq<char>>::empty();
    let ls = seq![l0, l1, l2, l3];
    assert(ls =~= seq![l0] + (seq![l1] + (seq![l2] + (seq![l3] + e))));
    lemma_fold_cons(st, l0, seq![l1] + (seq![l2] + (seq![l3] + e)), d);
    lemma_fold_cons(s1, l1, seq![l2] + (seq![l3] + e), d);
    lemma_fold_cons(s2, l2, seq![l3] + e, d);
    lemma_fold_cons(s3, l3, e, d);
    assert(fold_lines(st, ls, d) == (s4, None::<Seq<char>>));
    assert forall|j: int| 0 <= j < q.len() implies !is_ws(#[trigger] q[j]) by {
        reveal_strlit("\"");
        assert(('"' as u32) == 34);
        if 1 <= j < q.len() - 1 {
            assert(q[j] == "rect"@[j - 1]);
        }
    }
    lemma_kv_no_newline("preset"@, q);
    lemma_kv_no_newline("width"@, w);
    lemma_kv_no_newline("depth"@, dp);
    lemma_kv_no_newline("height"@, h);
    assert forall|i: int| 0 <= i < ls.len() implies no_newline(#[trigger] ls[i]) by {}
    lemma_run_join(st, ls, d);
    assert(s4.doc.anchors.len() == 0);
}


/// A `polygon` venue text, the preset, its side count `k` (at least three)
/// and its radius and height written one per line, is read without error
/// and resolves to the polygon with `k` sides and the texts given for
/// `radius` and `height`.
pub proof fn lemma_polygon_text_resolves(k: usize, r: Seq<char>, h: Seq<char>, d: VenueDialect)
    requires
        k >= 3,
        clean_value(r),
        clean_value(h),
    ensures
        ({
            let text = join_lines(
                seq![
                    kv("preset"@, "\""@ + "polygon"@ + "\""@),
                    kv("n"@, decimal(k as nat)),
                    kv("radius"@, r),
                    kv("height"@, h),
                ],
            );
            let (doc, err) = venue_scan_spec(text, d);
            &&& err is None
            &&& resolve_spec(doc) == Ok::<ShapeSpec, Seq<char>>(ShapeSpec::Polygon { n: k, radius: r, height: h })
        }),
{
    reveal_strlit("preset");
    reveal_strlit("width");
    reveal_strlit("depth");
    reveal_strlit("height");
    reveal_strlit("rect");
    reveal_strlit("polygon");
    reveal_strlit("n");
    reveal_strlit("radius");
    let st = initial_parser();
    let q = "\""@ + "polygon"@ + "\""@;
    let kt = decimal(k as nat);
    lemma_word_key("preset"@);
    lemma_word_key("n"@);
    lemma_word_key("radius"@);
    lemma_word_key("height"@);
    lemma_word_key("polygon"@);
    assert(clean_value("polygon"@));
    lemma_quoted("polygon"@);
    lemma_decimal_digits(k as nat);
    assert(clean_value(kt)) by {
        assert forall|j: int| 0 <= j < kt.len() implies !is_ws(#[trigger] kt[j]) && kt[j] != '#' && kt[j] != '"' by {
            assert(is_digit(kt[j]));
        }
    }
    lemma_clean_unquoted(kt);
    lemma_clean_unquoted(r);
    lemma_clean_unquoted(h);
    crate::text::lemma_parse_unsigned_decimal(k as nat, usize::MAX as int);
    let l0 = kv("preset"@, q);
    let l1 = kv("n"@, kt);
    let l2 = kv("radius"@, r);
    let l3 = kv("height"@, h);
    lemma_kv_line(st, "preset"@, q, d);
    let s1 = ParserSpec { doc: VenueSpec { preset: "polygon"@, ..st.doc }, ..st };
    assert(venue_line(st, line_content(l0), d) == Ok::<ParserSpec, Seq<char>>(s1));
    lemma_kv_line(s1, "n"@, kt, d);
    let s2 = ParserSpec { doc: VenueSpec { n: Some(k), ..s1.doc }, ..s1 };
    assert("n"@ != "preset"@ && "n"@ != "width"@ && "n"@ != "depth"@ && "n"@ != "height"@);
    assert(venue_line(s1, line_content(l1), d) == Ok::<ParserSpec, Seq<char>>(s2));
    lemma_kv_line(s2, "radius"@, r, d);
    let s3 = ParserSpec { doc: VenueSpec { radius: Some(r), ..noted(s2.doc, r) }, ..s2 };
    assert("radius"@ != "preset"@ && "radius"@ != "width"@ && "radius"@ != "depth"@ && "radius"@ != "height"@
        && "radius"@ != "n"@);
    assert(venue_line(s2, line_content(l2), d) == Ok::<ParserSpec, Seq<char>>(s3));
    lemma_kv_line(s3, "height"@, h, d);
    let s4 = ParserSpec { doc: VenueSpec { height: Some(h), ..noted(s3.doc, h) }, ..s3 };
    assert("height"@ != "preset"@ && "height"@ != "width"@ && "height"@ != "depth"@);
    assert(venue_line(s3, line_content(l3), d) == Ok::<ParserSpec, Seq<char>>(s4));
    let e = Seq::<Seq<char>>::empty();
    let ls = seq![l0, l1, l2, l3];
    assert(ls =~= seq![l0] + (seq![l1] + (seq![l2] + (seq![l3] + e))));
    lemma_fold_cons(st, l0, seq![l1] + (seq![l2] + (seq![l3] + e)), d);
    lemma_fold_cons(s1, l1, seq![l2] + (seq![l3] + e), d);
    lemma_fold_cons(s2, l2, seq![l3] + e, d);
    lemma_fold_cons(s3, l3, e, d);
    assert(fold_lines(st, ls, d) == (s4, None::<Seq<char>>));
    assert forall|j: int| 0 <= j < q.len() implies !is_ws(#[trigger] q[j]) by {
        reveal_strlit("\"");
        assert(('"' as u32) == 34);
        if 1 <= j < q.len() - 1 {
            assert(q[j] == "polygon"@[j - 1]);
        }
    }
    lemma_kv_no_newline("preset"@, q);
    lemma_kv_no_newline("n"@, kt);
    lemma_kv_no_newline("radius"@, r);
    lemma_kv_no_newline("height"@, h);
    assert forall|i: int| 0 <= i < ls.len() implies no_newline(#[trigger] ls[i]) by {}
    lemma_run_join(st, ls, d);
    assert("polygon"@ != "rect"@);
}

} // verus!
