//! Writing venue files: the same line format the venue reader takes, with
//! every number given as its text.

use vstd::prelude::*;

use crate::text::{decimal, opt_chars, push_chars, push_decimal, push_str, string_of};
use crate::venue::{PointSpec, PointText};

verus! {

/// An anchor to write: its exit point, and the pulley values that are set
/// (a pulley radius and runout only when positive).
#[derive(Clone, Debug)]
pub struct AnchorOut {
    pub exit: PointText,
    pub pulley_radius: Option<String>,
    pub pulley_axis: Option<PointText>,
    pub pulley_winch_exit: Option<PointText>,
    pub pulley_runout_m: Option<String>,
}

pub struct AnchorOutSpec {
    pub exit: PointSpec,
    pub pulley_radius: Option<Seq<char>>,
    pub pulley_axis: Option<PointSpec>,
    pub pulley_winch_exit: Option<PointSpec>,
    pub pulley_runout_m: Option<Seq<char>>,
}

pub open spec fn opt_point(p: Option<PointText>) -> Option<PointSpec> {
    match p {
        Some(q) => Some(q@),
        None => None,
    }
}

impl View for AnchorOut {
    type V = AnchorOutSpec;

    open spec fn view(&self) -> AnchorOutSpec {
        AnchorOutSpec {
            exit: self.exit@,
            pulley_radius: opt_chars(self.pulley_radius),
            pulley_axis: opt_point(self.pulley_axis),
            pulley_winch_exit: opt_point(self.pulley_winch_exit),
            pulley_runout_m: opt_chars(self.pulley_runout_m),
        }
    }
}

/// The cable model to write: its name, and the parameter texts written
/// for the `pulley` and `sag` models.
#[derive(Clone, Debug)]
pub struct CableModelOut {
    pub model: String,
    pub pulley_radius: String,
    pub sag_mu: String,
    pub sag_ea: String,
}

pub struct CableModelOutSpec {
    pub model: Seq<char>,
    pub pulley_radius: Seq<char>,
    pub sag_mu: Seq<char>,
    pub sag_ea: Seq<char>,
}

impl View for CableModelOut {
    type V = CableModelOutSpec;

    open spec fn view(&self) -> CableModelOutSpec {
        CableModelOutSpec {
            model: self.model@,
            pulley_radius: self.pulley_radius@,
            sag_mu: self.sag_mu@,
            sag_ea: self.sag_ea@,
        }
    }
}

pub open spec fn anchor_out_views(v: Seq<AnchorOut>) -> Seq<AnchorOutSpec> {
    v.map_values(|a: AnchorOut| a@)
}

pub open spec fn point_text_views(v: Seq<PointText>) -> Seq<PointSpec> {
    v.map_values(|p: PointText| p@)
}

/// A `key = value` line.
pub open spec fn kv(key: Seq<char>, v: Seq<char>) -> Seq<char> {
    key + " = "@ + v
}

/// The three lines `<prefix>x = ..`, `<prefix>y = ..`, `<prefix>z = ..`.
pub open spec fn point_lines(kx: Seq<char>, ky: Seq<char>, kz: Seq<char>, p: PointSpec) -> Seq<Seq<char>> {
    seq![kv(kx, p.x), kv(ky, p.y), kv(kz, p.z)]
}

pub open spec fn opt_line(key: Seq<char>, v: Option<Seq<char>>) -> Seq<Seq<char>> {
    match v {
        Some(t) => seq![kv(key, t)],
        None => seq![],
    }
}

pub open spec fn opt_point_lines(kx: Seq<char>, ky: Seq<char>, kz: Seq<char>, p: Option<PointSpec>) -> Seq<Seq<char>> {
    match p {
        Some(q) => point_lines(kx, ky, kz, q),
        None => seq![],
    }
}

/// The block of anchor `i`.
pub open spec fn anchor_lines(a: AnchorOutSpec, i: nat) -> Seq<Seq<char>> {
    seq!["[[anchors]]"@, "# cable "@ + decimal(i)] + point_lines("x"@, "y"@, "z"@, a.exit) + opt_line(
        "pulley_radius"@,
        a.pulley_radius,
    ) + opt_point_lines("pulley_axis_x"@, "pulley_axis_y"@, "pulley_axis_z"@, a.pulley_axis)
        + opt_point_lines("winch_x"@, "winch_y"@, "winch_z"@, a.pulley_winch_exit) + opt_line(
        "pulley_runout_m"@,
        a.pulley_runout_m,
    ) + seq![Seq::<char>::empty()]
}

/// The blocks of the first `k` anchors.
pub open spec fn anchors_lines(anchors: Seq<AnchorOutSpec>, k: int) -> Seq<Seq<char>>
    decreases k,
{
    if k <= 0 {
        seq![]
    } else {
        anchors_lines(anchors, k - 1) + anchor_lines(anchors[k - 1], (k - 1) as nat)
    }
}

/// The block of attachment `i`.
pub open spec fn attachment_lines(p: PointSpec, i: nat) -> Seq<Seq<char>> {
    seq!["[[attachments]]"@, "# body point "@ + decimal(i)] + point_lines("x"@, "y"@, "z"@, p) + seq![
        Seq::<char>::empty(),
    ]
}

/// The blocks of the first `k` attachments.
pub open spec fn attachments_lines(atts: Seq<PointSpec>, k: int) -> Seq<Seq<char>>
    decreases k,
{
    if k <= 0 {
        seq![]
    } else {
        attachments_lines(atts, k - 1) + attachment_lines(atts[k - 1], (k - 1) as nat)
    }
}

pub open spec fn bool_text(b: bool) -> Seq<char> {
    if b {
        "true"@
    } else {
        "false"@
    }
}

/// The cable model lines: the quoted name, then the pulley radius for the
/// `pulley` model, or the sag parameters for the `sag` model.
pub open spec fn model_lines(m: CableModelOutSpec) -> Seq<Seq<char>> {
    seq![kv("cable_model"@, "\""@ + m.model + "\""@)] + (if m.model == "pulley"@ {
        seq![kv("pulley_radius"@, m.pulley_radius)]
    } else {
        seq![]
    }) + (if m.model == "sag"@ {
        seq![kv("sag_mu"@, m.sag_mu), kv("sag_ea"@, m.sag_ea)]
    } else {
        seq![]
    })
}

/// All lines of a venue file.
pub open spec fn venue_lines(
    anchors: Seq<AnchorOutSpec>,
    atts: Seq<PointSpec>,
    point_mass: bool,
    home: PointSpec,
    m: CableModelOutSpec,
) -> Seq<Seq<char>> {
    seq![kv("point_mass"@, bool_text(point_mass)), Seq::<char>::empty()] + anchors_lines(
        anchors,
        anchors.len() as int,
    ) + attachments_lines(atts, atts.len() as int) + seq!["[home]"@] + point_lines(
        "x"@,
        "y"@,
        "z"@,
        home,
    ) + seq![Seq::<char>::empty()] + model_lines(m)
}

/// Lines joined into a text, each followed by a newline.
pub open spec fn join_lines(ls: Seq<Seq<char>>) -> Seq<char>
    decreases ls.len(),
{
    if ls.len() == 0 {
        seq![]
    } else {
        ls[0] + seq!['\n'] + join_lines(ls.drop_first())
    }
}

pub proof fn lemma_join_concat(a: Seq<Seq<char>>, b: Seq<Seq<char>>)
    ensures
        join_lines(a + b) == join_lines(a) + join_lines(b),
    decreases a.len(),
{
    if a.len() == 0 {
        assert(a + b =~= b);
        assert(join_lines(a) + join_lines(b) =~= join_lines(b));
    } else {
        assert((a + b)[0] == a[0]);
        assert((a + b).drop_first() =~= a.drop_first() + b);
        lemma_join_concat(a.drop_first(), b);
        assert(a[0] + seq!['\n'] + (join_lines(a.drop_first()) + join_lines(b)) =~= (a[0] + seq!['\n']
            + join_lines(a.drop_first())) + join_lines(b));
    }
}

/// Appends `line` and a newline.
fn push_line(out: &mut Vec<char>, line: &Vec<char>)
    ensures
        final(out)@ == old(out)@ + join_lines(seq![line@]),
{
    push_chars(out, line);
    out.push('\n');
    assert(seq![line@].drop_first() =~= Seq::<Seq<char>>::empty());
    assert(join_lines(Seq::<Seq<char>>::empty()) =~= Seq::<char>::empty());
    assert(join_lines(seq![line@]) =~= line@ + seq!['\n']);
}

fn kv_chars(key: &str, v: &String) -> (r: Vec<char>)
    ensures
        r@ == kv(key@, v@),
{
    let mut r: Vec<char> = Vec::new();
    push_str(&mut r, key);
    push_str(&mut r, " = ");
    push_str(&mut r, v.as_str());
    r
}

fn lit_chars(s: &str) -> (r: Vec<char>)
    ensures
        r@ == s@,
{
    let mut r: Vec<char> = Vec::new();
    push_str(&mut r, s);
    r
}

fn numbered(s: &str, i: usize) -> (r: Vec<char>)
    ensures
        r@ == s@ + decimal(i as nat),
{
    let mut r: Vec<char> = Vec::new();
    push_str(&mut r, s);
    push_decimal(&mut r, i as u64);
    r
}

/// Appends the lines of `ls`.
fn push_lines(out: &mut Vec<char>, ls: Vec<Vec<char>>)
    ensures
        final(out)@ == old(out)@ + join_lines(ls@.map_values(|l: Vec<char>| l@)),
{
    let ghost views = ls@.map_values(|l: Vec<char>| l@);
    let mut i: usize = 0;
    while i < ls.len()
        invariant
            0 <= i <= ls.len(),
            views == ls@.map_values(|l: Vec<char>| l@),
            out@ == old(out)@ + join_lines(views.take(i as int)),
        decreases ls.len() - i,
    {
        let ghost before = out@;
        push_line(out, &ls[i]);
        proof {
            lemma_join_concat(views.take(i as int), seq![views[i as int]]);
            assert(views.take(i as int) + seq![views[i as int]] =~= views.take(i + 1));
        }
        i = i + 1;
    }
    assert(views.take(ls.len() as int) =~= views);
}

fn point_line_vecs(kx: &str, ky: &str, kz: &str, p: &PointText) -> (r: Vec<Vec<char>>)
    ensures
        r@.map_values(|l: Vec<char>| l@) == point_lines(kx@, ky@, kz@, p@),
{
    let mut r: Vec<Vec<char>> = Vec::new();
    r.push(kv_chars(kx, &p.x));
    r.push(kv_chars(ky, &p.y));
    r.push(kv_chars(kz, &p.z));
    assert(r@.map_values(|l: Vec<char>| l@) =~= point_lines(kx@, ky@, kz@, p@));
    r
}

fn push_opt_line(out: &mut Vec<char>, key: &str, v: &Option<String>)
    ensures
        final(out)@ == old(out)@ + join_lines(opt_line(key@, opt_chars(*v))),
{
    match v {
        Some(r) => {
            push_line(out, &kv_chars(key, r));
        },
        None => {
            assert(join_lines(Seq::<Seq<char>>::empty()) =~= Seq::<char>::empty());
            assert(out@ =~= old(out)@ + Seq::<char>::empty());
        },
    }
}

fn push_opt_point(out: &mut Vec<char>, kx: &str, ky: &str, kz: &str, p: &Option<PointText>)
    ensures
        final(out)@ == old(out)@ + join_lines(opt_point_lines(kx@, ky@, kz@, opt_point(*p))),
{
    match p {
        Some(q) => {
            push_lines(out, point_line_vecs(kx, ky, kz, q));
        },
        None => {
            assert(join_lines(Seq::<Seq<char>>::empty()) =~= Seq::<char>::empty());
            assert(out@ =~= old(out)@ + Seq::<char>::empty());
        },
    }
}

/// `join_lines` of seven consecutive parts is the concatenation of theirs.
proof fn lemma_join7(
    p0: Seq<Seq<char>>,
    p1: Seq<Seq<char>>,
    p2: Seq<Seq<char>>,
    p3: Seq<Seq<char>>,
    p4: Seq<Seq<char>>,
    p5: Seq<Seq<char>>,
    p6: Seq<Seq<char>>,
)
    ensures
        join_lines(p0 + p1 + p2 + p3 + p4 + p5 + p6) == join_lines(p0) + join_lines(p1) + join_lines(p2)
            + join_lines(p3) + join_lines(p4) + join_lines(p5) + join_lines(p6),
{
    lemma_join_concat(p0 + p1 + p2 + p3 + p4 + p5, p6);
    lemma_join_concat(p0 + p1 + p2 + p3 + p4, p5);
    lemma_join_concat(p0 + p1 + p2 + p3, p4);
    lemma_join_concat(p0 + p1 + p2, p3);
    lemma_join_concat(p0 + p1, p2);
    lemma_join_concat(p0, p1);
}

/// Appends the block of anchor `i`.
fn push_anchor(out: &mut Vec<char>, a: &AnchorOut, i: usize)
    ensures
        final(out)@ == old(out)@ + join_lines(anchor_lines(a@, i as nat)),
{
    let ghost v = a@;
    let ghost p0 = seq!["[[anchors]]"@, "# cable "@ + decimal(i as nat)];
    let ghost p1 = point_lines("x"@, "y"@, "z"@, v.exit);
    let ghost p2 = opt_line("pulley_radius"@, v.pulley_radius);
    let ghost p3 = opt_point_lines("pulley_axis_x"@, "pulley_axis_y"@, "pulley_axis_z"@, v.pulley_axis);
    let ghost p4 = opt_point_lines("winch_x"@, "winch_y"@, "winch_z"@, v.pulley_winch_exit);
    let ghost p5 = opt_line("pulley_runout_m"@, v.pulley_runout_m);
    let ghost p6 = seq![Seq::<char>::empty()];
    let mut head: Vec<Vec<char>> = Vec::new();
    head.push(lit_chars("[[anchors]]"));
    head.push(numbered("# cable ", i));
    assert(head@.map_values(|l: Vec<char>| l@) =~= p0);
    let ghost s0 = out@;
    push_lines(out, head);
    let ghost s1 = out@;
    push_lines(out, point_line_vecs("x", "y", "z", &a.exit));
    let ghost s2 = out@;
    push_opt_line(out, "pulley_radius", &a.pulley_radius);
    let ghost s3 = out@;
    push_opt_point(out, "pulley_axis_x", "pulley_axis_y", "pulley_axis_z", &a.pulley_axis);
    let ghost s4 = out@;
    push_opt_point(out, "winch_x", "winch_y", "winch_z", &a.pulley_winch_exit);
    let ghost s5 = out@;
    push_opt_line(out, "pulley_runout_m", &a.pulley_runout_m);
    let ghost s6 = out@;
    push_line(out, &Vec::new());
    proof {
        assert(anchor_lines(v, i as nat) == p0 + p1 + p2 + p3 + p4 + p5 + p6);
        assert(join_lines(p6) == join_lines(seq![Seq::<char>::empty()]));
        lemma_join7(p0, p1, p2, p3, p4, p5, p6);
        assert(out@ =~= s0 + (join_lines(p0) + join_lines(p1) + join_lines(p2) + join_lines(p3)
            + join_lines(p4) + join_lines(p5) + join_lines(p6)));
    }
}

/// Appends the block of attachment `i`.
fn push_attachment(out: &mut Vec<char>, p: &PointText, i: usize)
    ensures
        final(out)@ == old(out)@ + join_lines(attachment_lines(p@, i as nat)),
{
    let ghost p0 = seq!["[[attachments]]"@, "# body point "@ + decimal(i as nat)];
    let ghost p1 = point_lines("x"@, "y"@, "z"@, p@);
    let ghost p2 = seq![Seq::<char>::empty()];
    let mut head: Vec<Vec<char>> = Vec::new();
    head.push(lit_chars("[[attachments]]"));
    head.push(numbered("# body point ", i));
    assert(head@.map_values(|l: Vec<char>| l@) =~= p0);
    let ghost s0 = out@;
    push_lines(out, head);
    push_lines(out, point_line_vecs("x", "y", "z", p));
    push_line(out, &Vec::new());
    proof {
        assert(attachment_lines(p@, i as nat) == p0 + p1 + p2);
        lemma_join_concat(p0 + p1, p2);
        lemma_join_concat(p0, p1);
        assert(out@ =~= s0 + (join_lines(p0) + join_lines(p1) + join_lines(p2)));
    }
}

/// Appends the cable model lines.
fn push_model(out: &mut Vec<char>, m: &CableModelOut)
    ensures
        final(out)@ == old(out)@ + join_lines(model_lines(m@)),
{
    let ghost mv = m@;
    let ghost p0 = seq![kv("cable_model"@, "\""@ + mv.model + "\""@)];
    let ghost p1 = if mv.model == "pulley"@ {
        seq![kv("pulley_radius"@, mv.pulley_radius)]
    } else {
        Seq::<Seq<char>>::empty()
    };
    let ghost p2 = if mv.model == "sag"@ {
        seq![kv("sag_mu"@, mv.sag_mu), kv("sag_ea"@, mv.sag_ea)]
    } else {
        Seq::<Seq<char>>::empty()
    };
    let ghost s0 = out@;
    let mut first: Vec<char> = Vec::new();
    push_str(&mut first, "cable_model");
    push_str(&mut first, " = ");
    push_str(&mut first, "\"");
    push_str(&mut first, m.model.as_str());
    push_str(&mut first, "\"");
    assert(first@ =~= kv("cable_model"@, "\""@ + mv.model + "\""@));
    push_line(out, &first);
    let name = crate::text::chars_of(m.model.as_str());
    let ghost s1 = out@;
    if crate::text::vec_eq_str(&name, "pulley") {
        push_line(out, &kv_chars("pulley_radius", &m.pulley_radius));
    } else {
        assert(join_lines(Seq::<Seq<char>>::empty()) =~= Seq::<char>::empty());
        assert(out@ =~= s1 + join_lines(p1));
    }
    let ghost s2 = out@;
    if crate::text::vec_eq_str(&name, "sag") {
        let mut ls: Vec<Vec<char>> = Vec::new();
        ls.push(kv_chars("sag_mu", &m.sag_mu));
        ls.push(kv_chars("sag_ea", &m.sag_ea));
        assert(ls@.map_values(|l: Vec<char>| l@) =~= p2);
        push_lines(out, ls);
    } else {
        assert(join_lines(Seq::<Seq<char>>::empty()) =~= Seq::<char>::empty());
        assert(out@ =~= s2 + join_lines(p2));
    }
    proof {
        assert(model_lines(mv) == p0 + p1 + p2);
        lemma_join_concat(p0 + p1, p2);
        lemma_join_concat(p0, p1);
        assert(out@ =~= s0 + (join_lines(p0) + join_lines(p1) + join_lines(p2)));
    }
}

/// Writes a venue file ([`venue_lines`], each line ended by a newline):
/// `point_mass`, the anchor blocks, the attachment blocks, the `[home]`
/// block and the cable model.
pub fn emit_venue_text(
    anchors: &[AnchorOut],
    attachments: &[PointText],
    point_mass: bool,
    home: &PointText,
    model: &CableModelOut,
) -> (r: String)
    ensures
        r@ == join_lines(
            venue_lines(
                anchor_out_views(anchors@),
                point_text_views(attachments@),
                point_mass,
                home@,
                model@,
            ),
        ),
{
    let ghost av = anchor_out_views(anchors@);
    let ghost tv = point_text_views(attachments@);
    let ghost q0 = seq![kv("point_mass"@, bool_text(point_mass)), Seq::<char>::empty()];
    let mut out: Vec<char> = Vec::new();
    let mut pm: Vec<char> = Vec::new();
    push_str(&mut pm, "point_mass");
    push_str(&mut pm, " = ");
    if point_mass {
        push_str(&mut pm, "true");
    } else {
        push_str(&mut pm, "false");
    }
    assert(pm@ =~= kv("point_mass"@, bool_text(point_mass)));
    push_line(&mut out, &pm);
    push_line(&mut out, &Vec::new());
    proof {
        lemma_join_concat(seq![kv("point_mass"@, bool_text(point_mass))], seq![Seq::<char>::empty()]);
        assert(seq![kv("point_mass"@, bool_text(point_mass))] + seq![Seq::<char>::empty()] =~= q0);
        assert(join_lines(Seq::<Seq<char>>::empty()) =~= Seq::<char>::empty());
        assert(out@ =~= join_lines(q0));
    }
    let ghost s1 = out@;
    let mut i: usize = 0;
    while i < anchors.len()
        invariant
            0 <= i <= anchors.len(),
            av == anchor_out_views(anchors@),
            out@ == s1 + join_lines(anchors_lines(av, i as int)),
        decreases anchors.len() - i,
    {
        let ghost before = out@;
        push_anchor(&mut out, &anchors[i], i);
        proof {
            lemma_join_concat(anchors_lines(av, i as int), anchor_lines(av[i as int], i as nat));
            assert(av[i as int] == anchors@[i as int]@);
        }
        i = i + 1;
    }
    let ghost s2 = out@;
    let mut k: usize = 0;
    while k < attachments.len()
        invariant
            0 <= k <= attachments.len(),
            tv == point_text_views(attachments@),
            out@ == s2 + join_lines(attachments_lines(tv, k as int)),
        decreases attachments.len() - k,
    {
        push_attachment(&mut out, &attachments[k], k);
        proof {
            lemma_join_concat(attachments_lines(tv, k as int), attachment_lines(tv[k as int], k as nat));
            assert(tv[k as int] == attachments@[k as int]@);
        }
        k = k + 1;
    }
    let ghost s3 = out@;
    push_line(&mut out, &lit_chars("[home]"));
    push_lines(&mut out, point_line_vecs("x", "y", "z", home));
    push_line(&mut out, &Vec::new());
    let ghost s4 = out@;
    push_model(&mut out, model);
    proof {
        let q1 = anchors_lines(av, av.len() as int);
        let q2 = attachments_lines(tv, tv.len() as int);
        let q3 = seq!["[home]"@];
        let q4 = point_lines("x"@, "y"@, "z"@, home@);
        let q5 = seq![Seq::<char>::empty()];
        let q6 = model_lines(model@);
        assert(venue_lines(av, tv, point_mass, home@, model@) == q0 + q1 + q2 + q3 + q4 + q5 + q6);
        lemma_join7(q0, q1, q2, q3, q4, q5, q6);
        assert(out@ =~= join_lines(q0) + join_lines(q1) + join_lines(q2) + join_lines(q3) + join_lines(q4)
            + join_lines(q5) + join_lines(q6));
    }
    string_of(&out)
}

} // verus!
