//! Venue files: the line-oriented TOML subset that describes a cable robot's
//! anchors, platform attachments, home pose and cable model.
//!
//! Each line is read up to its first `#`, trimmed, and is either blank, a
//! block header (`[[anchors]]`, `[[attachments]]`, `[home]`, or any other
//! `[...]`), or a `key = value` pair (value trimmed, then stripped of double
//! quotes). Numeric values are kept as their text; every numeric text is also
//! listed in reading order, so that a caller that converts them to numbers
//! meets the first bad one exactly where a line-by-line reader would.

use vstd::prelude::*;

use crate::text::{
    char_pos, chars_of, find_char, parse_unsigned, parse_unsigned_range, range_eq_str, slice_vec,
    opt_chars, string_of, texts, trim, trim_bounds, CharClass, IntErrorKind, lemma_parse_unsigned_bound,
};

verus! {

/// Which program's venue reader: the GUI service's (with `[home]`, pulley and
/// sag keys, and errors), the command-line library's (plain geometry keys,
/// anchors and attachments), or the command-line tool's own (plain geometry
/// keys and anchors; an `[[attachments]]` line is an ordinary header there).
/// The command-line readers stop the program on any failure.
#[derive(Clone, Copy, Debug, PartialEq, Eq, Structural)]
pub enum VenueDialect {
    Gui,
    Cli,
    AnchorsOnly,
}

/// The block that key lines currently belong to.
#[derive(Clone, Copy, Debug, PartialEq, Eq, Structural)]
pub enum BlockKind {
    Other,
    Anchor,
    Attachment,
}

/// Three coordinates, each the text of a number.
#[verifier::ext_equal]
pub struct PointSpec {
    pub x: Seq<char>,
    pub y: Seq<char>,
    pub z: Seq<char>,
}

#[verifier::ext_equal]
pub struct AnchorSpec {
    pub exit: PointSpec,
    pub pulley_radius: Option<Seq<char>>,
    pub pulley_runout_m: Option<Seq<char>>,
}

#[verifier::ext_equal]
pub struct DraftSpec {
    pub x: Option<Seq<char>>,
    pub y: Option<Seq<char>>,
    pub z: Option<Seq<char>>,
}

/// What a venue file says.
#[verifier::ext_equal]
pub struct VenueSpec {
    pub preset: Seq<char>,
    pub width: Option<Seq<char>>,
    pub depth: Option<Seq<char>>,
    pub height: Option<Seq<char>>,
    pub n: Option<usize>,
    pub radius: Option<Seq<char>>,
    pub point_mass: bool,
    pub anchors: Seq<AnchorSpec>,
    pub attachments: Seq<PointSpec>,
    pub home_x: Option<Seq<char>>,
    pub home_y: Option<Seq<char>>,
    pub home_z: Option<Seq<char>>,
    pub cable_model: Seq<char>,
    pub pulley_radius: Option<Seq<char>>,
    pub sag_mu: Option<Seq<char>>,
    pub sag_ea: Option<Seq<char>>,
    /// Every value text read as a number, in reading order.
    pub number_texts: Seq<Seq<char>>,
}

/// The reader's state between lines.
#[verifier::ext_equal]
pub struct ParserSpec {
    pub doc: VenueSpec,
    pub draft: Option<DraftSpec>,
    pub kind: BlockKind,
    pub draft_pulley_radius: Option<Seq<char>>,
    pub draft_runout: Option<Seq<char>>,
    pub in_home: bool,
}

pub open spec fn empty_draft() -> DraftSpec {
    DraftSpec { x: None, y: None, z: None }
}

/// The state before the first line: preset `rect`, point mass, `ideal` cables.
pub open spec fn initial_parser() -> ParserSpec {
    ParserSpec {
        doc: VenueSpec {
            preset: "rect"@,
            width: None,
            depth: None,
            height: None,
            n: None,
            radius: None,
            point_mass: true,
            anchors: seq![],
            attachments: seq![],
            home_x: None,
            home_y: None,
            home_z: None,
            cable_model: "ideal"@,
            pulley_radius: None,
            sag_mu: None,
            sag_ea: None,
            number_texts: seq![],
        },
        draft: None,
        kind: BlockKind::Other,
        draft_pulley_radius: None,
        draft_runout: None,
        in_home: false,
    }
}

/// Closing the open `[[anchors]]` / `[[attachments]]` block, if any: its
/// coordinates must all be present.
pub open spec fn flush_spec(st: ParserSpec) -> Result<ParserSpec, Seq<char>> {
    match st.draft {
        None => Ok(st),
        Some(d) => if d.x is None {
            Err("missing x"@)
        } else if d.y is None {
            Err("missing y"@)
        } else if d.z is None {
            Err("missing z"@)
        } else {
            let p = PointSpec { x: d.x->0, y: d.y->0, z: d.z->0 };
            if st.kind == BlockKind::Anchor {
                Ok(
                    ParserSpec {
                        doc: VenueSpec {
                            anchors: st.doc.anchors.push(
                                AnchorSpec {
                                    exit: p,
                                    pulley_radius: st.draft_pulley_radius,
                                    pulley_runout_m: st.draft_runout,
                                },
                            ),
                            ..st.doc
                        },
                        draft: None,
                        draft_pulley_radius: None,
                        draft_runout: None,
                        ..st
                    },
                )
            } else if st.kind == BlockKind::Attachment {
                Ok(
                    ParserSpec {
                        doc: VenueSpec { attachments: st.doc.attachments.push(p), ..st.doc },
                        draft: None,
                        ..st
                    },
                )
            } else {
                Ok(ParserSpec { draft: None, ..st })
            }
        },
    }
}

/// `doc` with the numeric text `v` noted.
pub open spec fn noted(doc: VenueSpec, v: Seq<char>) -> VenueSpec {
    VenueSpec { number_texts: doc.number_texts.push(v), ..doc }
}

/// The text of an integer parse error (`ParseIntError`'s `Display`).
pub open spec fn int_error_text(e: IntErrorKind) -> Seq<char> {
    match e {
        IntErrorKind::Empty => "cannot parse integer from empty string"@,
        IntErrorKind::InvalidDigit => "invalid digit found in string"@,
        IntErrorKind::PosOverflow => "number too large to fit in target type"@,
        IntErrorKind::NegOverflow => "number too small to fit in target type"@,
    }
}

/// `bool::from_str`: exactly `true` or `false`.
pub open spec fn bool_field(v: Seq<char>) -> Result<bool, Seq<char>> {
    if v == "true"@ {
        Ok(true)
    } else if v == "false"@ {
        Ok(false)
    } else {
        Err("provided string was not `true` or `false`"@)
    }
}

/// `usize::from_str`.
pub open spec fn count_field(v: Seq<char>) -> Result<usize, Seq<char>> {
    match parse_unsigned(v, usize::MAX as int) {
        Ok(x) => Ok(x as usize),
        Err(e) => Err(int_error_text(e)),
    }
}

/// A top-level `key = value` line: the geometry keys, and for the GUI
/// reader the cable-model keys. Unknown keys are ignored.
pub open spec fn apply_top_key(
    doc: VenueSpec,
    k: Seq<char>,
    v: Seq<char>,
    d: VenueDialect,
) -> Result<VenueSpec, Seq<char>> {
    if k == "preset"@ {
        Ok(VenueSpec { preset: v, ..doc })
    } else if k == "width"@ {
        Ok(VenueSpec { width: Some(v), ..noted(doc, v) })
    } else if k == "depth"@ {
        Ok(VenueSpec { depth: Some(v), ..noted(doc, v) })
    } else if k == "height"@ {
        Ok(VenueSpec { height: Some(v), ..noted(doc, v) })
    } else if k == "n"@ {
        match count_field(v) {
            Ok(c) => Ok(VenueSpec { n: Some(c), ..doc }),
            Err(e) => Err(e),
        }
    } else if k == "radius"@ {
        Ok(VenueSpec { radius: Some(v), ..noted(doc, v) })
    } else if k == "point_mass"@ {
        match bool_field(v) {
            Ok(b) => Ok(VenueSpec { point_mass: b, ..doc }),
            Err(e) => Err(e),
        }
    } else if d != VenueDialect::Gui {
        Ok(doc)
    } else if k == "cable_model"@ {
        Ok(VenueSpec { cable_model: v, ..doc })
    } else if k == "pulley_radius"@ {
        Ok(VenueSpec { pulley_radius: Some(v), ..noted(doc, v) })
    } else if k == "sag_mu"@ {
        Ok(VenueSpec { sag_mu: Some(v), ..noted(doc, v) })
    } else if k == "sag_ea"@ {
        Ok(VenueSpec { sag_ea: Some(v), ..noted(doc, v) })
    } else {
        Ok(doc)
    }
}

/// A `key = value` line inside an open `[[anchors]]` / `[[attachments]]`
/// block: the coordinates, and for a GUI anchor its pulley keys; other keys
/// are ignored.
pub open spec fn apply_block_key(
    st: ParserSpec,
    dr: DraftSpec,
    k: Seq<char>,
    v: Seq<char>,
    d: VenueDialect,
) -> Result<ParserSpec, Seq<char>> {
    if k == "x"@ {
        Ok(ParserSpec { doc: noted(st.doc, v), draft: Some(DraftSpec { x: Some(v), ..dr }), ..st })
    } else if k == "y"@ {
        Ok(ParserSpec { doc: noted(st.doc, v), draft: Some(DraftSpec { y: Some(v), ..dr }), ..st })
    } else if k == "z"@ {
        Ok(ParserSpec { doc: noted(st.doc, v), draft: Some(DraftSpec { z: Some(v), ..dr }), ..st })
    } else if d == VenueDialect::Gui && st.kind == BlockKind::Anchor && k == "pulley_radius"@ {
        Ok(ParserSpec { doc: noted(st.doc, v), draft_pulley_radius: Some(v), ..st })
    } else if d == VenueDialect::Gui && st.kind == BlockKind::Anchor && k == "pulley_runout_m"@ {
        Ok(ParserSpec { doc: noted(st.doc, v), draft_runout: Some(v), ..st })
    } else {
        Ok(st)
    }
}

/// A `key = value` line inside `[home]` (GUI reader): `x`, `y`, `z` set the
/// home pose; any other key leaves the home block and is read as top-level.
pub open spec fn apply_home_key(st: ParserSpec, k: Seq<char>, v: Seq<char>, d: VenueDialect) -> Result<
    ParserSpec,
    Seq<char>,
> {
    if k == "x"@ {
        Ok(ParserSpec { doc: VenueSpec { home_x: Some(v), ..noted(st.doc, v) }, ..st })
    } else if k == "y"@ {
        Ok(ParserSpec { doc: VenueSpec { home_y: Some(v), ..noted(st.doc, v) }, ..st })
    } else if k == "z"@ {
        Ok(ParserSpec { doc: VenueSpec { home_z: Some(v), ..noted(st.doc, v) }, ..st })
    } else {
        match apply_top_key(st.doc, k, v, d) {
            Ok(doc) => Ok(ParserSpec { doc, in_home: false, ..st }),
            Err(e) => Err(e),
        }
    }
}

/// A `key = value` line, routed by the block it stands in.
pub open spec fn apply_key(st: ParserSpec, k: Seq<char>, v: Seq<char>, d: VenueDialect) -> Result<
    ParserSpec,
    Seq<char>,
> {
    match st.draft {
        Some(dr) => apply_block_key(st, dr, k, v, d),
        None => if st.in_home {
            apply_home_key(st, k, v, d)
        } else {
            match apply_top_key(st.doc, k, v, d) {
                Ok(doc) => Ok(ParserSpec { doc, ..st }),
                Err(e) => Err(e),
            }
        },
    }
}

/// The key of a `key = value` line: the text before the first `=`, trimmed.
pub open spec fn key_of(line: Seq<char>) -> Seq<char> {
    trim(line.take(char_pos(line, '=') as int), CharClass::Whitespace)
}

/// The value of a `key = value` line: the text after the first `=`, trimmed
/// of whitespace and then of double quotes.
pub open spec fn value_of(line: Seq<char>) -> Seq<char> {
    trim(
        trim(line.skip(char_pos(line, '=') + 1int), CharClass::Whitespace),
        CharClass::Quote,
    )
}

/// One line, already cut at its first `#` and trimmed.
pub open spec fn venue_line(st: ParserSpec, line: Seq<char>, d: VenueDialect) -> Result<
    ParserSpec,
    Seq<char>,
> {
    if line.len() == 0 {
        Ok(st)
    } else if line == "[[anchors]]"@ {
        match flush_spec(st) {
            Ok(s) => Ok(
                ParserSpec {
                    draft: Some(empty_draft()),
                    kind: BlockKind::Anchor,
                    in_home: false,
                    draft_pulley_radius: None,
                    draft_runout: None,
                    ..s
                },
            ),
            Err(e) => Err(e),
        }
    } else if d != VenueDialect::AnchorsOnly && line == "[[attachments]]"@ {
        match flush_spec(st) {
            Ok(s) => Ok(
                ParserSpec {
                    draft: Some(empty_draft()),
                    kind: BlockKind::Attachment,
                    in_home: false,
                    ..s
                },
            ),
            Err(e) => Err(e),
        }
    } else if d == VenueDialect::Gui && line == "[home]"@ {
        match flush_spec(st) {
            Ok(s) => Ok(ParserSpec { kind: BlockKind::Other, in_home: true, ..s }),
            Err(e) => Err(e),
        }
    } else if line[0] == '[' {
        match flush_spec(st) {
            Ok(s) => Ok(ParserSpec { kind: BlockKind::Other, in_home: false, ..s }),
            Err(e) => Err(e),
        }
    } else if char_pos(line, '=') < line.len() {
        apply_key(st, key_of(line), value_of(line), d)
    } else {
        Ok(st)
    }
}

/// The content of a raw line: the text before its first `#`, trimmed.
pub open spec fn line_content(raw: Seq<char>) -> Seq<char> {
    trim(raw.take(char_pos(raw, '#') as int), CharClass::Whitespace)
}

pub proof fn lemma_char_pos_le(s: Seq<char>, c: char)
    ensures
        char_pos(s, c) <= s.len(),
        char_pos(s, c) < s.len() ==> s[char_pos(s, c) as int] == c,
        forall|j: int| 0 <= j < char_pos(s, c) ==> s[j] != c,
    decreases s.len(),
{
    if s.len() > 0 && s[0] != c {
        lemma_char_pos_le(s.drop_first(), c);
        assert forall|j: int| 0 <= j < char_pos(s, c) implies s[j] != c by {
            if j > 0 {
                assert(s[j] == s.drop_first()[j - 1]);
            }
        }
    }
}

/// The lines of `text` (split at each newline), read in order from state
/// `st`: the state after the last line read without error, and the error of
/// the line that failed, if one did.
pub open spec fn run_lines(st: ParserSpec, text: Seq<char>, d: VenueDialect) -> (
    ParserSpec,
    Option<Seq<char>>,
)
    decreases text.len(),
{
    let p = char_pos(text, '\n');
    match venue_line(st, line_content(text.take(p as int)), d) {
        Err(e) => (st, Some(e)),
        Ok(s) => if p < text.len() {
            proof {
                lemma_char_pos_le(text, '\n');
            }
            run_lines(s, text.skip(p + 1int), d)
        } else {
            (s, None)
        },
    }
}

/// What a venue text says and the first error met reading it: every line in
/// order, then the last open block is closed. On an error, the document
/// holds what was read before the failing step (its `number_texts` are the
/// numbers a line-by-line reader would have converted before failing).
pub open spec fn venue_scan_spec(text: Seq<char>, d: VenueDialect) -> (VenueSpec, Option<Seq<char>>) {
    let (st, err) = run_lines(initial_parser(), text, d);
    match err {
        Some(e) => (st.doc, Some(e)),
        None => match flush_spec(st) {
            Err(e) => (st.doc, Some(e)),
            Ok(s) => (s.doc, None),
        },
    }
}

/// A point given by the texts of its coordinates.
#[derive(Clone, Debug)]
pub struct PointText {
    pub x: String,
    pub y: String,
    pub z: String,
}

impl View for PointText {
    type V = PointSpec;

    open spec fn view(&self) -> PointSpec {
        PointSpec { x: self.x@, y: self.y@, z: self.z@ }
    }
}

/// An `[[anchors]]` block: its exit point and optional pulley texts.
#[derive(Clone, Debug)]
pub struct AnchorText {
    pub exit: PointText,
    pub pulley_radius: Option<String>,
    pub pulley_runout_m: Option<String>,
}

impl View for AnchorText {
    type V = AnchorSpec;

    open spec fn view(&self) -> AnchorSpec {
        AnchorSpec {
            exit: self.exit@,
            pulley_radius: opt_chars(self.pulley_radius),
            pulley_runout_m: opt_chars(self.pulley_runout_m),
        }
    }
}

pub open spec fn anchor_views(v: Seq<AnchorText>) -> Seq<AnchorSpec> {
    v.map_values(|a: AnchorText| a@)
}

pub open spec fn point_views(v: Seq<PointText>) -> Seq<PointSpec> {
    v.map_values(|q: PointText| q@)
}

/// What a venue file says, with numbers kept as their texts.
#[derive(Clone, Debug)]
pub struct VenueText {
    pub preset: String,
    pub width: Option<String>,
    pub depth: Option<String>,
    pub height: Option<String>,
    pub n: Option<usize>,
    pub radius: Option<String>,
    pub point_mass: bool,
    pub anchors: Vec<AnchorText>,
    pub attachments: Vec<PointText>,
    pub home_x: Option<String>,
    pub home_y: Option<String>,
    pub home_z: Option<String>,
    pub cable_model: String,
    pub pulley_radius: Option<String>,
    pub sag_mu: Option<String>,
    pub sag_ea: Option<String>,
    /// Every value text read as a number, in reading order.
    pub number_texts: Vec<String>,
}

impl View for VenueText {
    type V = VenueSpec;

    open spec fn view(&self) -> VenueSpec {
        VenueSpec {
            preset: self.preset@,
            width: opt_chars(self.width),
            depth: opt_chars(self.depth),
            height: opt_chars(self.height),
            n: self.n,
            radius: opt_chars(self.radius),
            point_mass: self.point_mass,
            anchors: anchor_views(self.anchors@),
            attachments: point_views(self.attachments@),
            home_x: opt_chars(self.home_x),
            home_y: opt_chars(self.home_y),
            home_z: opt_chars(self.home_z),
            cable_model: self.cable_model@,
            pulley_radius: opt_chars(self.pulley_radius),
            sag_mu: opt_chars(self.sag_mu),
            sag_ea: opt_chars(self.sag_ea),
            number_texts: texts(self.number_texts@),
        }
    }
}

/// The result of reading a venue text: what was read, and the first error
/// met, if any (then `doc` holds what was read before the failing step).
#[derive(Clone, Debug)]
pub struct VenueScan {
    pub doc: VenueText,
    pub error: Option<String>,
}

struct DraftText {
    x: Option<String>,
    y: Option<String>,
    z: Option<String>,
}

impl View for DraftText {
    type V = DraftSpec;

    closed spec fn view(&self) -> DraftSpec {
        DraftSpec { x: opt_chars(self.x), y: opt_chars(self.y), z: opt_chars(self.z) }
    }
}

struct VenueReader {
    doc: VenueText,
    draft: Option<DraftText>,
    kind: BlockKind,
    draft_pulley_radius: Option<String>,
    draft_runout: Option<String>,
    in_home: bool,
}

impl View for VenueReader {
    type V = ParserSpec;

    closed spec fn view(&self) -> ParserSpec {
        ParserSpec {
            doc: self.doc@,
            draft: match self.draft {
                Some(dr) => Some(dr@),
                None => None,
            },
            kind: self.kind,
            draft_pulley_radius: opt_chars(self.draft_pulley_radius),
            draft_runout: opt_chars(self.draft_runout),
            in_home: self.in_home,
        }
    }
}

/// The characters `v[lo..hi]` as a `String`.
fn text_of(v: &[char], lo: usize, hi: usize) -> (t: String)
    requires
        lo <= hi <= v.len(),
    ensures
        t@ == v@.subrange(lo as int, hi as int),
{
    let w = slice_vec(v, lo, hi);
    string_of(&w)
}

/// Appends a numeric text to the list of numbers read.
fn note_number(nums: &mut Vec<String>, t: String)
    ensures
        texts(final(nums)@) == texts(old(nums)@).push(t@),
{
    let ghost before = texts(nums@);
    let ghost tv = t@;
    nums.push(t);
    assert(texts(nums@) =~= before.push(tv));
}

impl VenueReader {
    fn new() -> (r: Self)
        ensures
            r@ == initial_parser(),
    {
        let r = VenueReader {
            doc: VenueText {
                preset: "rect".to_owned(),
                width: None,
                depth: None,
                height: None,
                n: None,
                radius: None,
                point_mass: true,
                anchors: Vec::new(),
                attachments: Vec::new(),
                home_x: None,
                home_y: None,
                home_z: None,
                cable_model: "ideal".to_owned(),
                pulley_radius: None,
                sag_mu: None,
                sag_ea: None,
                number_texts: Vec::new(),
            },
            draft: None,
            kind: BlockKind::Other,
            draft_pulley_radius: None,
            draft_runout: None,
            in_home: false,
        };
        assert(anchor_views(r.doc.anchors@) =~= seq![]);
        assert(point_views(r.doc.attachments@) =~= seq![]);
        assert(texts(r.doc.number_texts@) =~= seq![]);
        r
    }

    /// Closes the open block ([`flush_spec`]); on an error nothing changes.
    fn flush(&mut self) -> (r: Result<(), String>)
        ensures
            match flush_spec(old(self)@) {
                Ok(s) => r is Ok && final(self)@ == s,
                Err(e) => r matches Err(m) && m@ == e && final(self)@ == old(self)@,
            },
    {
        match &self.draft {
            None => {
                return Ok(());
            },
            Some(dr) => {
                if dr.x.is_none() {
                    return Err("missing x".to_owned());
                }
                if dr.y.is_none() {
                    return Err("missing y".to_owned());
                }
                if dr.z.is_none() {
                    return Err("missing z".to_owned());
                }
            },
        }
        let dr = self.draft.take().unwrap();
        let point = PointText { x: dr.x.unwrap(), y: dr.y.unwrap(), z: dr.z.unwrap() };
        match self.kind {
            BlockKind::Anchor => {
                let a = AnchorText {
                    exit: point,
                    pulley_radius: self.draft_pulley_radius.take(),
                    pulley_runout_m: self.draft_runout.take(),
                };
                let ghost av = a@;
                let ghost before = anchor_views(self.doc.anchors@);
                self.doc.anchors.push(a);
                assert(anchor_views(self.doc.anchors@) =~= before.push(av));
            },
            BlockKind::Attachment => {
                let ghost pv = point@;
                let ghost before = point_views(self.doc.attachments@);
                self.doc.attachments.push(point);
                assert(point_views(self.doc.attachments@) =~= before.push(pv));
            },
            BlockKind::Other => {},
        }
        Ok(())
    }
}

/// The text of an integer parse error ([`int_error_text`]).
fn int_error_message(e: IntErrorKind) -> (m: String)
    ensures
        m@ == int_error_text(e),
{
    match e {
        IntErrorKind::Empty => "cannot parse integer from empty string".to_owned(),
        IntErrorKind::InvalidDigit => "invalid digit found in string".to_owned(),
        IntErrorKind::PosOverflow => "number too large to fit in target type".to_owned(),
        IntErrorKind::NegOverflow => "number too small to fit in target type".to_owned(),
    }
}

/// A top-level `key = value` line, the key at `v[ka..kb]` and the value at
/// `v[va..vb]` ([`apply_top_key`]); on an error nothing changes.
fn set_top_key(
    doc: &mut VenueText,
    v: &[char],
    ka: usize,
    kb: usize,
    va: usize,
    vb: usize,
    d: VenueDialect,
) -> (r: Result<(), String>)
    requires
        ka <= kb <= v.len(),
        va <= vb <= v.len(),
    ensures
        match apply_top_key(old(doc)@, v@.subrange(ka as int, kb as int), v@.subrange(va as int, vb as int), d) {
            Ok(s) => r is Ok && final(doc)@ == s,
            Err(e) => r matches Err(m) && m@ == e && final(doc)@ == old(doc)@,
        },
{
    if range_eq_str(v, ka, kb, "preset") {
        doc.preset = text_of(v, va, vb);
        return Ok(());
    }
    if range_eq_str(v, ka, kb, "width") {
        doc.width = Some(text_of(v, va, vb));
        note_number(&mut doc.number_texts, text_of(v, va, vb));
        return Ok(());
    }
    if range_eq_str(v, ka, kb, "depth") {
        doc.depth = Some(text_of(v, va, vb));
        note_number(&mut doc.number_texts, text_of(v, va, vb));
        return Ok(());
    }
    if range_eq_str(v, ka, kb, "height") {
        doc.height = Some(text_of(v, va, vb));
        note_number(&mut doc.number_texts, text_of(v, va, vb));
        return Ok(());
    }
    if range_eq_str(v, ka, kb, "n") {
        proof {
            lemma_parse_unsigned_bound(v@.subrange(va as int, vb as int), usize::MAX as int);
        }
        return match parse_unsigned_range(v, va, vb, usize::MAX as u64) {
            Ok(x) => {
                doc.n = Some(x as usize);
                Ok(())
            },
            Err(e) => Err(int_error_message(e)),
        };
    }
    if range_eq_str(v, ka, kb, "radius") {
        doc.radius = Some(text_of(v, va, vb));
        note_number(&mut doc.number_texts, text_of(v, va, vb));
        return Ok(());
    }
    if range_eq_str(v, ka, kb, "point_mass") {
        if range_eq_str(v, va, vb, "true") {
            doc.point_mass = true;
            return Ok(());
        } else if range_eq_str(v, va, vb, "false") {
            doc.point_mass = false;
            return Ok(());
        } else {
            return Err("provided string was not `true` or `false`".to_owned());
        }
    }
    if d != VenueDialect::Gui {
        return Ok(());
    }
    if range_eq_str(v, ka, kb, "cable_model") {
        doc.cable_model = text_of(v, va, vb);
        return Ok(());
    }
    if range_eq_str(v, ka, kb, "pulley_radius") {
        doc.pulley_radius = Some(text_of(v, va, vb));
        note_number(&mut doc.number_texts, text_of(v, va, vb));
        return Ok(());
    }
    if range_eq_str(v, ka, kb, "sag_mu") {
        doc.sag_mu = Some(text_of(v, va, vb));
        note_number(&mut doc.number_texts, text_of(v, va, vb));
        return Ok(());
    }
    if range_eq_str(v, ka, kb, "sag_ea") {
        doc.sag_ea = Some(text_of(v, va, vb));
        note_number(&mut doc.number_texts, text_of(v, va, vb));
        return Ok(());
    }
    Ok(())
}

impl VenueReader {
    /// A key line inside an open block ([`apply_block_key`]).
    fn set_block_key(&mut self, v: &[char], ka: usize, kb: usize, va: usize, vb: usize, d: VenueDialect) -> (r: Result<(), String>)
        requires
            ka <= kb <= v.len(),
            va <= vb <= v.len(),
            old(self).draft is Some,
        ensures
            match apply_block_key(old(self)@, old(self)@.draft->0, v@.subrange(ka as int, kb as int), v@.subrange(va as int, vb as int), d) {
                Ok(s) => r is Ok && final(self)@ == s,
                Err(e) => r matches Err(m) && m@ == e && final(self)@ == old(self)@,
            },
    {
        if range_eq_str(v, ka, kb, "x") {
            let mut dr = self.draft.take().unwrap();
            dr.x = Some(text_of(v, va, vb));
            self.draft = Some(dr);
            note_number(&mut self.doc.number_texts, text_of(v, va, vb));
            return Ok(());
        }
        if range_eq_str(v, ka, kb, "y") {
            let mut dr = self.draft.take().unwrap();
            dr.y = Some(text_of(v, va, vb));
            self.draft = Some(dr);
            note_number(&mut self.doc.number_texts, text_of(v, va, vb));
            return Ok(());
        }
        if range_eq_str(v, ka, kb, "z") {
            let mut dr = self.draft.take().unwrap();
            dr.z = Some(text_of(v, va, vb));
            self.draft = Some(dr);
            note_number(&mut self.doc.number_texts, text_of(v, va, vb));
            return Ok(());
        }
        if d == VenueDialect::Gui && self.kind == BlockKind::Anchor && range_eq_str(v, ka, kb, "pulley_radius") {
            self.draft_pulley_radius = Some(text_of(v, va, vb));
            note_number(&mut self.doc.number_texts, text_of(v, va, vb));
            return Ok(());
        }
        if d == VenueDialect::Gui && self.kind == BlockKind::Anchor && range_eq_str(v, ka, kb, "pulley_runout_m") {
            self.draft_runout = Some(text_of(v, va, vb));
            note_number(&mut self.doc.number_texts, text_of(v, va, vb));
            return Ok(());
        }
        Ok(())
    }

    /// A key line inside `[home]` ([`apply_home_key`]).
    fn set_home_key(&mut self, v: &[char], ka: usize, kb: usize, va: usize, vb: usize, d: VenueDialect) -> (r: Result<(), String>)
        requires
            ka <= kb <= v.len(),
            va <= vb <= v.len(),
        ensures
            match apply_home_key(old(self)@, v@.subrange(ka as int, kb as int), v@.subrange(va as int, vb as int), d) {
                Ok(s) => r is Ok && final(self)@ == s,
                Err(e) => r matches Err(m) && m@ == e && final(self)@ == old(self)@,
            },
    {
        if range_eq_str(v, ka, kb, "x") {
            self.doc.home_x = Some(text_of(v, va, vb));
            note_number(&mut self.doc.number_texts, text_of(v, va, vb));
            return Ok(());
        }
        if range_eq_str(v, ka, kb, "y") {
            self.doc.home_y = Some(text_of(v, va, vb));
            note_number(&mut self.doc.number_texts, text_of(v, va, vb));
            return Ok(());
        }
        if range_eq_str(v, ka, kb, "z") {
            self.doc.home_z = Some(text_of(v, va, vb));
            note_number(&mut self.doc.number_texts, text_of(v, va, vb));
            return Ok(());
        }
        match set_top_key(&mut self.doc, v, ka, kb, va, vb, d) {
            Ok(()) => {
                self.in_home = false;
                Ok(())
            },
            Err(m) => Err(m),
        }
    }

    /// A key line, routed by the open block ([`apply_key`]).
    fn set_key(&mut self, v: &[char], ka: usize, kb: usize, va: usize, vb: usize, d: VenueDialect) -> (r: Result<(), String>)
        requires
            ka <= kb <= v.len(),
            va <= vb <= v.len(),
        ensures
            match apply_key(old(self)@, v@.subrange(ka as int, kb as int), v@.subrange(va as int, vb as int), d) {
                Ok(s) => r is Ok && final(self)@ == s,
                Err(e) => r matches Err(m) && m@ == e && final(self)@ == old(self)@,
            },
    {
        if self.draft.is_some() {
            self.set_block_key(v, ka, kb, va, vb, d)
        } else if self.in_home {
            self.set_home_key(v, ka, kb, va, vb, d)
        } else {
            set_top_key(&mut self.doc, v, ka, kb, va, vb, d)
        }
    }
}

impl VenueReader {
    /// One line, its content at `v[lo..hi]` ([`venue_line`]); on an error
    /// nothing changes.
    fn read_line(&mut self, v: &[char], lo: usize, hi: usize, d: VenueDialect) -> (r: Result<(), String>)
        requires
            lo <= hi <= v.len(),
        ensures
            match venue_line(old(self)@, v@.subrange(lo as int, hi as int), d) {
                Ok(s) => r is Ok && final(self)@ == s,
                Err(e) => r matches Err(m) && m@ == e && final(self)@ == old(self)@,
            },
    {
        let ghost line = v@.subrange(lo as int, hi as int);
        if lo == hi {
            return Ok(());
        }
        if range_eq_str(v, lo, hi, "[[anchors]]") {
            match self.flush() {
                Err(m) => {
                    return Err(m);
                },
                Ok(()) => {},
            }
            self.draft = Some(DraftText { x: None, y: None, z: None });
            self.kind = BlockKind::Anchor;
            self.in_home = false;
            self.draft_pulley_radius = None;
            self.draft_runout = None;
            return Ok(());
        }
        if d != VenueDialect::AnchorsOnly && range_eq_str(v, lo, hi, "[[attachments]]") {
            match self.flush() {
                Err(m) => {
                    return Err(m);
                },
                Ok(()) => {},
            }
            self.draft = Some(DraftText { x: None, y: None, z: None });
            self.kind = BlockKind::Attachment;
            self.in_home = false;
            return Ok(());
        }
        if d == VenueDialect::Gui && range_eq_str(v, lo, hi, "[home]") {
            match self.flush() {
                Err(m) => {
                    return Err(m);
                },
                Ok(()) => {},
            }
            self.kind = BlockKind::Other;
            self.in_home = true;
            return Ok(());
        }
        if v[lo] == '[' {
            match self.flush() {
                Err(m) => {
                    return Err(m);
                },
                Ok(()) => {},
            }
            self.kind = BlockKind::Other;
            self.in_home = false;
            return Ok(());
        }
        let eq = find_char(v, lo, hi, '=');
        if eq < hi {
            let (ka, kb) = trim_bounds(v, lo, eq, CharClass::Whitespace);
            let (wa, wb) = trim_bounds(v, eq + 1, hi, CharClass::Whitespace);
            let (va, vb) = trim_bounds(v, wa, wb, CharClass::Quote);
            proof {
                assert(line.take(char_pos(line, '=') as int) =~= v@.subrange(lo as int, eq as int));
                assert(line.skip(char_pos(line, '=') + 1int) =~= v@.subrange(eq + 1, hi as int));
            }
            return self.set_key(v, ka, kb, va, vb, d);
        }
        Ok(())
    }
}

/// Reads a venue text line by line ([`venue_scan_spec`]): what it says, and
/// the first error met, if any.
pub fn scan_venue_text(text: &str, d: VenueDialect) -> (r: VenueScan)
    ensures
        (r.doc@, opt_chars(r.error)) == venue_scan_spec(text@, d),
{
    let v = chars_of(text);
    let n = v.len();
    let mut p = VenueReader::new();
    let mut pos: usize = 0;
    assert(v@.subrange(0, n as int) =~= v@);
    loop
        invariant
            pos <= n == v@.len(),
            v@ == text@,
            run_lines(initial_parser(), v@, d) == run_lines(p@, v@.subrange(pos as int, n as int), d),
        decreases n - pos,
    {
        let ghost rest = v@.subrange(pos as int, n as int);
        let nl = find_char(&v, pos, n, '\n');
        let hash = find_char(&v, pos, nl, '#');
        let (a, b) = trim_bounds(&v, pos, hash, CharClass::Whitespace);
        proof {
            let raw = rest.take(char_pos(rest, '\n') as int);
            assert(raw =~= v@.subrange(pos as int, nl as int));
            assert(raw.take(char_pos(raw, '#') as int) =~= v@.subrange(pos as int, hash as int));
            assert(line_content(raw) == v@.subrange(a as int, b as int));
        }
        let ghost before = p@;
        match p.read_line(&v, a, b, d) {
            Err(m) => {
                return VenueScan { doc: p.doc, error: Some(m) };
            },
            Ok(()) => {},
        }
        if nl == n {
            let ghost after = p@;
            assert(run_lines(before, rest, d) == (after, None::<Seq<char>>));
            return match p.flush() {
                Err(m) => VenueScan { doc: p.doc, error: Some(m) },
                Ok(()) => VenueScan { doc: p.doc, error: None },
            };
        }
        proof {
            assert(rest.skip(char_pos(rest, '\n') + 1int) =~= v@.subrange(nl + 1, n as int));
        }
        pos = nl + 1;
    }
}

/// How the anchors of a venue are given.
pub enum ShapeSpec {
    /// Listed one by one in `[[anchors]]` blocks.
    Explicit,
    /// The `rect` preset.
    Rect { width: Seq<char>, depth: Seq<char>, height: Seq<char> },
    /// The `polygon` preset.
    Polygon { n: usize, radius: Seq<char>, height: Seq<char> },
}

/// How the anchors of a venue are given, numbers kept as their texts.
#[derive(Clone, Debug)]
pub enum VenueShape {
    Explicit,
    Rect { width: String, depth: String, height: String },
    Polygon { n: usize, radius: String, height: String },
}

impl View for VenueShape {
    type V = ShapeSpec;

    open spec fn view(&self) -> ShapeSpec {
        match self {
            VenueShape::Explicit => ShapeSpec::Explicit,
            VenueShape::Rect { width, depth, height } => ShapeSpec::Rect {
                width: width@,
                depth: depth@,
                height: height@,
            },
            VenueShape::Polygon { n, radius, height } => ShapeSpec::Polygon {
                n: *n,
                radius: radius@,
                height: height@,
            },
        }
    }
}

/// Which anchors a venue describes: explicit anchors (at least three, and as
/// many attachments as anchors when attachments are given), else the preset
/// with all of its keys (a polygon needs at least three sides).
pub open spec fn resolve_spec(doc: VenueSpec) -> Result<ShapeSpec, Seq<char>> {
    if doc.anchors.len() > 0 {
        if doc.anchors.len() < 3 {
            Err("invalid configuration: need at least 3 anchors"@)
        } else if doc.attachments.len() > 0 && doc.attachments.len() != doc.anchors.len() {
            Err("invalid configuration: attachments must match anchor count"@)
        } else {
            Ok(ShapeSpec::Explicit)
        }
    } else if doc.preset == "rect"@ {
        if doc.width is None {
            Err("missing width"@)
        } else if doc.depth is None {
            Err("missing depth"@)
        } else if doc.height is None {
            Err("missing height"@)
        } else {
            Ok(
                ShapeSpec::Rect {
                    width: doc.width->0,
                    depth: doc.depth->0,
                    height: doc.height->0,
                },
            )
        }
    } else if doc.preset == "polygon"@ {
        if doc.n is None {
            Err("missing n"@)
        } else if doc.radius is None {
            Err("missing radius"@)
        } else if doc.height is None {
            Err("missing height"@)
        } else if doc.n->0 < 3 {
            Err("invalid configuration: n must be >= 3"@)
        } else {
            Ok(ShapeSpec::Polygon { n: doc.n->0, radius: doc.radius->0, height: doc.height->0 })
        }
    } else {
        Err("unknown preset "@ + doc.preset)
    }
}

fn clone_text(o: &Option<String>) -> (t: String)
    requires
        o is Some,
    ensures
        t@ == o->0@,
{
    match o {
        Some(t) => t.clone(),
        None => String::new(),
    }
}

/// Decides how the anchors of a read venue are given ([`resolve_spec`]).
pub fn resolve_venue(doc: &VenueText) -> (r: Result<VenueShape, String>)
    ensures
        match resolve_spec(doc@) {
            Ok(sh) => r matches Ok(x) && x@ == sh,
            Err(e) => r matches Err(m) && m@ == e,
        },
{
    let na = doc.anchors.len();
    let nt = doc.attachments.len();
    assert(doc@.anchors.len() == na);
    assert(doc@.attachments.len() == nt);
    if na > 0 {
        if na < 3 {
            return Err("invalid configuration: need at least 3 anchors".to_owned());
        }
        if nt > 0 && nt != na {
            return Err("invalid configuration: attachments must match anchor count".to_owned());
        }
        return Ok(VenueShape::Explicit);
    }
    let preset = chars_of(doc.preset.as_str());
    if range_eq_str(&preset, 0, preset.len(), "rect") {
        assert(preset@.subrange(0, preset@.len() as int) =~= preset@);
        if doc.width.is_none() {
            return Err("missing width".to_owned());
        }
        if doc.depth.is_none() {
            return Err("missing depth".to_owned());
        }
        if doc.height.is_none() {
            return Err("missing height".to_owned());
        }
        return Ok(
            VenueShape::Rect {
                width: clone_text(&doc.width),
                depth: clone_text(&doc.depth),
                height: clone_text(&doc.height),
            },
        );
    }
    assert(preset@.subrange(0, preset@.len() as int) =~= preset@);
    if range_eq_str(&preset, 0, preset.len(), "polygon") {
        let n = match doc.n {
            None => {
                return Err("missing n".to_owned());
            },
            Some(n) => n,
        };
        if doc.radius.is_none() {
            return Err("missing radius".to_owned());
        }
        if doc.height.is_none() {
            return Err("missing height".to_owned());
        }
        if n < 3 {
            return Err("invalid configuration: n must be >= 3".to_owned());
        }
        return Ok(
            VenueShape::Polygon {
                n,
                radius: clone_text(&doc.radius),
                height: clone_text(&doc.height),
            },
        );
    }
    let mut m: Vec<char> = Vec::new();
    crate::text::push_str(&mut m, "unknown preset ");
    crate::text::push_chars(&mut m, &preset);
    Err(string_of(&m))
}

/// How many anchors a venue gives: the listed ones, the four corners of a
/// `rect`, or the `n` vertices of a `polygon`.
pub open spec fn shape_anchor_count(sh: ShapeSpec, doc: VenueSpec) -> nat {
    match sh {
        ShapeSpec::Explicit => doc.anchors.len(),
        ShapeSpec::Rect { .. } => 4,
        ShapeSpec::Polygon { n, .. } => n as nat,
    }
}

impl VenueShape {
    /// The number of anchors ([`shape_anchor_count`]).
    pub fn anchor_count(&self, doc: &VenueText) -> (c: usize)
        ensures
            c == shape_anchor_count(self@, doc@),
    {
        match self {
            VenueShape::Explicit => doc.anchors.len(),
            VenueShape::Rect { .. } => 4,
            VenueShape::Polygon { n, .. } => *n,
        }
    }
}


/// The shape a venue resolves to takes each number from the key of the same
/// name: a `rect` is the doc's width, depth and height texts, a `polygon` its
/// `n`, radius and height. Explicit anchors win when there are any (at least
/// three, with no attachments or one per anchor); a preset is resolved
/// whenever all of its keys are given (and `n >= 3`).
pub proof fn lemma_shape_follows_keys(doc: VenueSpec)
    ensures
        resolve_spec(doc) matches Ok(ShapeSpec::Rect { width, depth, height }) ==> {
            &&& doc.anchors.len() == 0
            &&& doc.preset == "rect"@
            &&& doc.width == Some(width)
            &&& doc.depth == Some(depth)
            &&& doc.height == Some(height)
        },
        resolve_spec(doc) matches Ok(ShapeSpec::Polygon { n, radius, height }) ==> {
            &&& doc.anchors.len() == 0
            &&& doc.preset == "polygon"@
            &&& doc.n == Some(n)
            &&& n >= 3
            &&& doc.radius == Some(radius)
            &&& doc.height == Some(height)
        },
        resolve_spec(doc) matches Ok(ShapeSpec::Explicit) ==> doc.anchors.len() >= 3 && (
        doc.attachments.len() == 0 || doc.attachments.len() == doc.anchors.len()),
        doc.anchors.len() >= 3 && (doc.attachments.len() == 0 || doc.attachments.len()
            == doc.anchors.len()) ==> resolve_spec(doc) == Ok::<ShapeSpec, Seq<char>>(ShapeSpec::Explicit),
        (doc.anchors.len() == 0 && doc.preset == "rect"@ && doc.width is Some && doc.depth is Some
            && doc.height is Some) ==> resolve_spec(doc) is Ok,
        (doc.anchors.len() == 0 && doc.preset == "polygon"@ && doc.n is Some && doc.radius is Some
            && doc.height is Some && doc.n->0 >= 3) ==> resolve_spec(doc) is Ok,
{
    reveal_strlit("rect");
    reveal_strlit("polygon");
    assert("rect"@ != "polygon"@) by {
        assert("rect"@[0] != "polygon"@[0]);
    }
}

} // verus!
