//! The Diaryx drawing profile, held to a file: the same rules as the
//! profile's document, one [`Rule`] per rule, and [`check`] is what
//! `thorn check` runs.
//!
//! Every rule has the same fallback: a reader that knows nothing but SVG
//! gets the correct silhouette in flat colour. So none of these makes a
//! file unreadable — a finding is a promise the editor's output makes that
//! this file does not keep.

use vstd::prelude::*;

use crate::drawing::{root_attrs_in, shapes_in, Drawing};
use crate::number::{canonical, is_canonical};
use crate::shape::{attr_value, attrs_view, kind_geometry, kind_tag, opt_view, views, ShapeKind};
use crate::text::{decimal, decimal_of, owned, push_str, str_eq};
use crate::tree::{shapes_view, ShapeView};

verus! {

/// The profile's version, written as the root's `data-diaryx-drawing`
/// value.
pub const VERSION: &'static str = "1";

/// The marker attribute on `<svg>` that says a file follows the profile.
pub const MARKER: &'static str = "data-diaryx-drawing";

/// The attribute every shape carries, by which the editor addresses it.
pub const ID: &'static str = "data-id";

/// One rule of the profile, as the profile's document numbers them.
#[derive(Clone, Copy, Debug, PartialEq, Eq, Hash, Structural)]
#[non_exhaustive]
pub enum Rule {
    /// `<svg>` carries `data-diaryx-drawing`, with the profile version as
    /// its value.
    Marker,
    /// `<svg>` carries `viewBox`: the drawing is page-shaped, and an embed
    /// and a site can ask its size without laying it out.
    ViewBox,
    /// Every shape carries `data-id`.
    ShapeId,
    /// No two shapes carry the same `data-id`.
    UniqueId,
    /// Every geometry attribute is a number in the profile's format — at
    /// most three decimals, no trailing zeros — so an unedited re-export is
    /// byte-stable.
    NumberFormat,
}

/// Each rule in one line.
pub open spec fn rule_about(r: Rule) -> Seq<char> {
    match r {
        Rule::Marker => "<svg> carries data-diaryx-drawing with the profile version"@,
        Rule::ViewBox => "<svg> carries viewBox"@,
        Rule::ShapeId => "every shape carries data-id"@,
        Rule::UniqueId => "no two shapes share a data-id"@,
        Rule::NumberFormat =>
            "every geometry attribute is a number with at most three decimals and no trailing zeros"@,
    }
}

impl Rule {
    /// The rule in one line, for a report.
    pub fn about(self) -> (r: &'static str)
        ensures
            r@ == rule_about(self),
    {
        match self {
            Rule::Marker => "<svg> carries data-diaryx-drawing with the profile version",
            Rule::ViewBox => "<svg> carries viewBox",
            Rule::ShapeId => "every shape carries data-id",
            Rule::UniqueId => "no two shapes share a data-id",
            Rule::NumberFormat => {
                "every geometry attribute is a number with at most three decimals and no trailing zeros"
            },
        }
    }
}

/// One way a file breaks the profile.
#[derive(Clone, Debug, PartialEq)]
pub struct Finding {
    pub rule: Rule,
    /// The shape's `data-id`, when the finding is about one shape that has
    /// one; `None` for a finding about the root or an unidentified shape.
    pub shape: Option<String>,
    /// What was found, for a person.
    pub message: String,
}

/// A finding by its views.
pub struct FindingView {
    pub rule: Rule,
    pub shape: Option<Seq<char>>,
    pub message: Seq<char>,
}

/// Findings by their views.
pub open spec fn findings_view(f: Seq<Finding>) -> Seq<FindingView> {
    f.map_values(|x: Finding| FindingView { rule: x.rule, shape: opt_view(x.shape), message: x.message@ })
}

/// How Rust's `Debug` spells a string: quoted, with its quotes,
/// backslashes and control characters escaped.
pub uninterp spec fn quoted(s: Seq<char>) -> Seq<char>;

/// `<str as Debug>::fmt`, as `format!("{s:?}")` writes it.
#[verifier::external_body]
fn debug_quoted(s: &str) -> (r: String)
    ensures
        r@ == quoted(s@),
{
    format!("{s:?}")
}

/// What the root owes the profile: the marker with this version, and a
/// `viewBox`.
pub open spec fn root_findings(attrs: Seq<(Seq<char>, Option<Seq<char>>)>) -> Seq<FindingView> {
    let marker = match attr_value(attrs, "data-diaryx-drawing"@) {
        Some(v) => if v == "1"@ {
            Seq::empty()
        } else {
            seq![
                FindingView {
                    rule: Rule::Marker,
                    shape: None,
                    message: "data-diaryx-drawing is "@ + quoted(v)
                        + "; this profile is version \"1\""@,
                },
            ]
        },
        None => seq![
            FindingView {
                rule: Rule::Marker,
                shape: None,
                message: "<svg> has no data-diaryx-drawing attribute"@,
            },
        ],
    };
    let view_box = if attr_value(attrs, "viewBox"@) is None {
        seq![
            FindingView {
                rule: Rule::ViewBox,
                shape: None,
                message: "<svg> has no viewBox attribute"@,
            },
        ]
    } else {
        Seq::empty()
    };
    marker + view_box
}

/// The index of the last of the first `i` shapes carrying `data-id` `id`.
pub open spec fn last_with_id(shapes: Seq<ShapeView>, id: Seq<char>, i: int) -> Option<int>
    decreases i,
{
    if i <= 0 {
        None
    } else if shapes[i - 1].id == Some(id) {
        Some(i - 1)
    } else {
        last_with_id(shapes, id, i - 1)
    }
}

/// What shape `i` owes the profile about its id: to have one, and one no
/// shape before it has — counted against the nearest one before it.
pub open spec fn id_findings(shapes: Seq<ShapeView>, i: int) -> Seq<FindingView> {
    let s = shapes[i];
    let tag = kind_tag(s.kind);
    match s.id {
        Some(id) => match last_with_id(shapes, id, i) {
            Some(first) => seq![
                FindingView {
                    rule: Rule::UniqueId,
                    shape: Some(id),
                    message: "<"@ + tag + "> (shape "@ + decimal(i as nat) + ") repeats data-id="@
                        + quoted(id) + " of shape "@ + decimal(first as nat),
                },
            ],
            None => Seq::empty(),
        },
        None => seq![
            FindingView {
                rule: Rule::ShapeId,
                shape: None,
                message: "<"@ + tag + "> (shape "@ + decimal(i as nat) + ") has no data-id"@,
            },
        ],
    }
}

/// What shape `s` owes the profile about the first `k` of `names`, its
/// geometry attributes: each present one in the number format.
pub open spec fn number_findings(s: ShapeView, names: Seq<Seq<char>>, k: nat) -> Seq<FindingView>
    decreases k,
{
    if k == 0 || k > names.len() {
        Seq::empty()
    } else {
        let head = number_findings(s, names, (k - 1) as nat);
        let name = names[k - 1];
        match attr_value(s.attrs, name) {
            Some(value) => if canonical(value) {
                head
            } else {
                head.push(
                    FindingView {
                        rule: Rule::NumberFormat,
                        shape: s.id,
                        message: "<"@ + kind_tag(s.kind) + "> "@ + name + "="@ + quoted(value)
                            + " is not in the profile's number format"@,
                    },
                )
            },
            None => head,
        }
    }
}

/// What the first `n` shapes owe the profile, in paint order.
pub open spec fn shape_findings(shapes: Seq<ShapeView>, n: nat) -> Seq<FindingView>
    decreases n,
{
    if n == 0 || n > shapes.len() {
        Seq::empty()
    } else {
        let i = n - 1;
        let names = kind_geometry(shapes[i].kind);
        shape_findings(shapes, (n - 1) as nat) + id_findings(shapes, i) + number_findings(
            shapes[i],
            names,
            names.len(),
        )
    }
}

/// Every way the text `t` breaks the profile, in the order they are found:
/// the root's first, then each shape's.
pub open spec fn findings_of(t: Seq<u8>) -> Seq<FindingView> {
    root_findings(root_attrs_in(t)) + shape_findings(shapes_in(t), shapes_in(t).len())
}

/// The finding that says attribute `name` of shape `s` holds `value`, not
/// in the number format.
pub open spec fn format_finding(s: ShapeView, name: Seq<char>, value: Seq<char>) -> FindingView {
    FindingView {
        rule: Rule::NumberFormat,
        shape: s.id,
        message: "<"@ + kind_tag(s.kind) + "> "@ + name + "="@ + quoted(value)
            + " is not in the profile's number format"@,
    }
}

/// Among the first `k` names, name `j` out of format is reported.
proof fn lemma_number_finding_in(s: ShapeView, names: Seq<Seq<char>>, k: nat, j: int, value: Seq<char>)
    requires
        0 <= j < k <= names.len(),
        attr_value(s.attrs, names[j]) == Some(value),
        !canonical(value),
    ensures
        number_findings(s, names, k).contains(format_finding(s, names[j], value)),
    decreases k,
{
    let head = number_findings(s, names, (k - 1) as nat);
    if j == k - 1 {
        assert(number_findings(s, names, k) == head.push(format_finding(s, names[j], value)));
        assert(number_findings(s, names, k)[head.len() as int] == format_finding(s, names[j], value));
    } else {
        lemma_number_finding_in(s, names, (k - 1) as nat, j, value);
        let f = format_finding(s, names[j], value);
        let w = choose|w: int| 0 <= w < head.len() && head[w] == f;
        assert(number_findings(s, names, k)[w] == f);
    }
}

/// What shape `i` owes is among what the first `n` shapes owe.
proof fn lemma_shape_finding_in(shapes: Seq<ShapeView>, n: nat, i: int, f: FindingView)
    requires
        0 <= i < n <= shapes.len(),
        number_findings(shapes[i], kind_geometry(shapes[i].kind), kind_geometry(shapes[i].kind).len()).contains(f),
    ensures
        shape_findings(shapes, n).contains(f),
    decreases n,
{
    let names = kind_geometry(shapes[n - 1].kind);
    let head = shape_findings(shapes, (n - 1) as nat);
    let ids = id_findings(shapes, n - 1);
    let nums = number_findings(shapes[n - 1], names, names.len());
    assert(shape_findings(shapes, n) == head + ids + nums);
    if i == n - 1 {
        let w = choose|w: int| 0 <= w < nums.len() && nums[w] == f;
        assert(shape_findings(shapes, n)[head.len() + ids.len() + w] == f);
    } else {
        lemma_shape_finding_in(shapes, (n - 1) as nat, i, f);
        let w = choose|w: int| 0 <= w < head.len() && head[w] == f;
        assert(shape_findings(shapes, n)[w] == f);
    }
}

/// Each kind is held to the number format at each of its geometry
/// attributes: a line at `x1`, `y1`, `x2` and `y2`; a box and an image at
/// `x`, `y`, `width`, `height`, `rx` and `ry`; an ellipse at `cx`, `cy`,
/// `rx` and `ry`; a circle at `cx`, `cy` and `r`; a label at `x`, `y` and
/// `data-width`. Whichever of them holds a value out of format, `check`
/// reports it — a `NumberFormat` finding on the shape, naming its tag, the
/// attribute and the value.
pub proof fn lemma_geometry_checked(t: Seq<u8>, i: int, name: Seq<char>, value: Seq<char>)
    requires
        0 <= i < shapes_in(t).len(),
        ({
            let k = shapes_in(t)[i].kind;
            ||| k == ShapeKind::Line && (name == "x1"@ || name == "y1"@ || name == "x2"@ || name
                == "y2"@)
            ||| (k == ShapeKind::Rect || k == ShapeKind::Image) && (name == "x"@ || name == "y"@
                || name == "width"@ || name == "height"@ || name == "rx"@ || name == "ry"@)
            ||| k == ShapeKind::Ellipse && (name == "cx"@ || name == "cy"@ || name == "rx"@ || name
                == "ry"@)
            ||| k == ShapeKind::Circle && (name == "cx"@ || name == "cy"@ || name == "r"@)
            ||| k == ShapeKind::Text && (name == "x"@ || name == "y"@ || name == "data-width"@)
        }),
        attr_value(shapes_in(t)[i].attrs, name) == Some(value),
        !canonical(value),
    ensures
        findings_of(t).contains(
            FindingView {
                rule: Rule::NumberFormat,
                shape: shapes_in(t)[i].id,
                message: "<"@ + kind_tag(shapes_in(t)[i].kind) + "> "@ + name + "="@ + quoted(value)
                    + " is not in the profile's number format"@,
            },
        ),
{
    let shapes = shapes_in(t);
    let s = shapes[i];
    let names = kind_geometry(s.kind);
    let j: int = if names.len() > 0 && names[0] == name {
        0
    } else if names.len() > 1 && names[1] == name {
        1
    } else if names.len() > 2 && names[2] == name {
        2
    } else if names.len() > 3 && names[3] == name {
        3
    } else if names.len() > 4 && names[4] == name {
        4
    } else {
        5
    };
    assert(0 <= j < names.len() && names[j] == name);
    lemma_number_finding_in(s, names, names.len(), j, value);
    let f = format_finding(s, name, value);
    lemma_shape_finding_in(shapes, shapes.len(), i, f);
    let all = findings_of(t);
    let root = root_findings(root_attrs_in(t));
    let sf = shape_findings(shapes, shapes.len());
    let w = choose|w: int| 0 <= w < sf.len() && sf[w] == f;
    assert(all[root.len() + w] == f);
}

/// A line is held to the number format at each of its four end
/// coordinates, `x1`, `y1`, `x2` and `y2`: whichever of them holds a value
/// out of format, `check` reports it on the line as `<line> name="value"`.
pub proof fn lemma_line_ends_checked(t: Seq<u8>, i: int, name: Seq<char>, value: Seq<char>)
    requires
        0 <= i < shapes_in(t).len(),
        shapes_in(t)[i].kind == ShapeKind::Line,
        name == "x1"@ || name == "y1"@ || name == "x2"@ || name == "y2"@,
        attr_value(shapes_in(t)[i].attrs, name) == Some(value),
        !canonical(value),
    ensures
        findings_of(t).contains(
            FindingView {
                rule: Rule::NumberFormat,
                shape: shapes_in(t)[i].id,
                message: "<line> "@ + name + "="@ + quoted(value)
                    + " is not in the profile's number format"@,
            },
        ),
{
    reveal_strlit("<line> ");
    reveal_strlit("<");
    reveal_strlit("line");
    reveal_strlit("> ");
    lemma_geometry_checked(t, i, name, value);
    let s = shapes_in(t)[i];
    assert("<"@ + kind_tag(s.kind) + "> "@ + name + "="@ + quoted(value)
        + " is not in the profile's number format"@ =~= "<line> "@ + name + "="@ + quoted(value)
        + " is not in the profile's number format"@);
}

/// A finding about the root.
fn root_finding(rule: Rule, message: String) -> (f: Finding)
    ensures
        f.rule == rule,
        f.shape is None,
        f.message@ == message@,
{
    Finding { rule, shape: None, message }
}

/// The value of the first attribute named `name`, when present and not
/// bare.
fn attr_in<'a>(attrs: &'a [(String, Option<String>)], name: &str) -> (r: Option<&'a str>)
    ensures
        crate::shape::opt_str_view(r) == attr_value(attrs_view(attrs@), name@),
{
    let ghost av = attrs_view(attrs@);
    let mut i: usize = 0;
    while i < attrs.len()
        invariant
            av == attrs_view(attrs@),
            i <= attrs@.len(),
            crate::shape::attr_index(av.subrange(0, i as int), name@) is None,
        decreases attrs@.len() - i,
    {
        assert(av.subrange(0, i + 1).drop_last() =~= av.subrange(0, i as int));
        if str_eq(attrs[i].0.as_str(), name) {
            proof {
                lemma_first_attr(av, name@, i as int);
            }
            return match &attrs[i].1 {
                Some(v) => Some(v.as_str()),
                None => None,
            };
        }
        i += 1;
    }
    assert(av.subrange(0, attrs@.len() as int) =~= av);
    None
}

proof fn lemma_first_attr(a: Seq<(Seq<char>, Option<Seq<char>>)>, name: Seq<char>, i: int)
    requires
        0 <= i < a.len(),
        a[i].0 == name,
        crate::shape::attr_index(a.subrange(0, i), name) is None,
    ensures
        crate::shape::attr_index(a, name) == Some(i),
    decreases a.len(),
{
    if i < a.len() - 1 {
        assert(a.drop_last().subrange(0, i) =~= a.subrange(0, i));
        lemma_first_attr(a.drop_last(), name, i);
    } else {
        assert(a.drop_last() =~= a.subrange(0, i));
    }
}

/// Hold a drawing to the profile. Empty means it conforms.
pub fn check(drawing: &Drawing) -> (r: Vec<Finding>)
    requires
        drawing.wf(),
    ensures
        findings_view(r@) == findings_of(drawing.text()),
{
    proof {
        reveal_strlit("data-diaryx-drawing");
        reveal_strlit("1");
        reveal_strlit("viewBox");
    }
    let mut findings: Vec<Finding> = Vec::new();
    let attrs = drawing.root_attrs();
    match attr_in(attrs, "data-diaryx-drawing") {
        Some(v) => {
            if !str_eq(v, "1") {
                let mut m = owned("data-diaryx-drawing is ");
                push_str(&mut m, debug_quoted(v).as_str());
                push_str(&mut m, "; this profile is version \"1\"");
                findings.push(root_finding(Rule::Marker, m));
            }
        },
        None => {
            findings.push(root_finding(Rule::Marker, owned("<svg> has no data-diaryx-drawing attribute")));
        },
    }
    if attr_in(attrs, "viewBox").is_none() {
        findings.push(root_finding(Rule::ViewBox, owned("<svg> has no viewBox attribute")));
    }
    proof {
        reveal_strlit("data-diaryx-drawing is ");
        reveal_strlit("; this profile is version \"1\"");
        reveal_strlit("<svg> has no data-diaryx-drawing attribute");
        reveal_strlit("<svg> has no viewBox attribute");
        assert(findings_view(findings@) =~= root_findings(root_attrs_in(drawing.text())));
    }
    let shapes = drawing.shapes();
    let ghost sv = shapes_view(shapes@);
    let ghost head = findings_view(findings@);
    proof {
        drawing.lemma_wf();
    }
    let mut i: usize = 0;
    while i < shapes.len()
        invariant
            i <= shapes@.len(),
            sv == shapes_view(shapes@),
            findings_view(findings@) == head + shape_findings(sv, i as nat),
        decreases shapes@.len() - i,
    {
        let s = &shapes[i];
        assert(sv[i as int] == s@);
        let ghost before = findings_view(findings@);
        let tag = s.kind.tag();
        match &s.id {
            Some(id) => {
                // The nearest shape before this one with the same id.
                let mut j: usize = i;
                let mut first: Option<usize> = None;
                while j > 0
                    invariant_except_break
                        first is None,
                    invariant
                        j <= i < shapes@.len(),
                        sv == shapes_view(shapes@),
                        s.id == Some(*id),
                        last_with_id(sv, id@, i as int) == last_with_id(sv, id@, j as int),
                    ensures
                        last_with_id(sv, id@, i as int) == match first {
                            Some(f) => Some(f as int),
                            None => None,
                        },
                    decreases j,
                {
                    assert(sv[j - 1] == shapes@[j - 1]@);
                    let same = match &shapes[j - 1].id {
                        Some(x) => str_eq(x.as_str(), id.as_str()),
                        None => false,
                    };
                    proof {
                        if same {
                            assert(sv[j - 1].id == Some(id@));
                        } else {
                            assert(sv[j - 1].id != Some(id@));
                        }
                    }
                    if same {
                        first = Some(j - 1);
                        break;
                    }
                    j -= 1;
                }
                if let Some(f) = first {
                    let mut m = owned("<");
                    push_str(&mut m, tag);
                    push_str(&mut m, "> (shape ");
                    push_str(&mut m, decimal_of(i as u128).as_str());
                    push_str(&mut m, ") repeats data-id=");
                    push_str(&mut m, debug_quoted(id.as_str()).as_str());
                    push_str(&mut m, " of shape ");
                    push_str(&mut m, decimal_of(f as u128).as_str());
                    findings.push(Finding { rule: Rule::UniqueId, shape: Some(id.clone()), message: m });
                }
            },
            None => {
                let mut m = owned("<");
                push_str(&mut m, tag);
                push_str(&mut m, "> (shape ");
                push_str(&mut m, decimal_of(i as u128).as_str());
                push_str(&mut m, ") has no data-id");
                findings.push(Finding { rule: Rule::ShapeId, shape: None, message: m });
            },
        }
        proof {
            reveal_strlit("<");
            reveal_strlit("> (shape ");
            reveal_strlit(") repeats data-id=");
            reveal_strlit(" of shape ");
            reveal_strlit(") has no data-id");
            assert(findings_view(findings@) =~= before + id_findings(sv, i as int));
        }
        let names = s.kind.geometry_attrs();
        let ghost nv = views(names@);
        let ghost mid = findings_view(findings@);
        let mut k: usize = 0;
        while k < names.len()
            invariant
                k <= names@.len(),
                i < sv.len(),
                tag@ == kind_tag(s@.kind),
                nv == views(names@),
                nv.len() == names@.len(),
                nv == kind_geometry(s.kind),
                sv[i as int] == s@,
                findings_view(findings@) == mid + number_findings(s@, nv, k as nat),
            decreases names@.len() - k,
        {
            let name = names[k];
            let ghost b2 = findings_view(findings@);
            assert(nv[k as int] == name@);
            assert(s@.attrs == attrs_view(s.attrs@));
            let found = s.attr(name);
            if let Some(value) = found {
                if !is_canonical(value) {
                    let mut m = owned("<");
                    push_str(&mut m, tag);
                    push_str(&mut m, "> ");
                    push_str(&mut m, name);
                    push_str(&mut m, "=");
                    push_str(&mut m, debug_quoted(value).as_str());
                    push_str(&mut m, " is not in the profile's number format");
                    let sid = crate::tree::clone_opt(&s.id);
                    let f = Finding { rule: Rule::NumberFormat, shape: sid, message: m };
                    proof {
                        reveal_strlit("<");
                        reveal_strlit("> ");
                        reveal_strlit("=");
                        reveal_strlit(" is not in the profile's number format");
                        assert(f.message@ =~= "<"@ + kind_tag(s@.kind) + "> "@ + name@ + "="@ + quoted(
                            value@,
                        ) + " is not in the profile's number format"@);
                    }
                    findings.push(f);
                    assert(findings_view(findings@) =~= b2.push(
                        FindingView { rule: f.rule, shape: opt_view(f.shape), message: f.message@ },
                    ));
                }
            }
            proof {
                assert(findings_view(findings@) =~= mid + number_findings(s@, nv, (k + 1) as nat));
            }
            k += 1;
        }
        proof {
            assert(findings_view(findings@) =~= head + shape_findings(sv, (i + 1) as nat));
        }
        i += 1;
    }
    findings
}

} // verus!
