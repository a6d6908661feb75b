//! The crop-definition file format: a verified writer and reader for the
//! human-readable structured text that definition files hold, of the shape
//! `(id:"corn",stages:[(model:"m",duration:(min:1,max:2),begin_status:Some(Growing)),...])`.
//!
//! Strings are double-quoted with `\"` and `\\` escapes, unsigned numbers
//! are plain decimal, options are `None`/`Some(..)`, and the status is a
//! tagged union over its four variant names.

use vstd::prelude::*;
use vstd::string::StrSliceExecFns;
use vstd::string::StringExecFns;

use crate::crops::{
    stages_view, stages_wf, CropDefinition, CropStage, CropStatus, DefView, StageView, StatusView,
};
use crate::items::{drops_view, drops_valid, DropView, ItemDrop, ItemId};
use crate::range::Range;

verus! {

/// Relies on String::push: it appends exactly the given character.
#[verifier::external_body]
fn push_char(s: &mut String, c: char)
    ensures
        final(s)@ == old(s)@ + seq![c],
{
    s.push(c)
}

// ---------------------------------------------------------------------------
// Serialization, at the specification level.
// ---------------------------------------------------------------------------
/// A quote or backslash is escaped with a backslash; all else stands alone.
pub open spec fn esc_char(c: char) -> Seq<char> {
    if c == '"' || c == '\\' {
        seq!['\\', c]
    } else {
        seq![c]
    }
}

/// The escaped body of a string literal.
pub open spec fn ser_string_body(v: Seq<char>) -> Seq<char>
    decreases v.len(),
{
    if v.len() == 0 {
        Seq::<char>::empty()
    } else {
        esc_char(v[0]) + ser_string_body(v.drop_first())
    }
}

/// A double-quoted, escaped string literal.
pub open spec fn ser_string(v: Seq<char>) -> Seq<char> {
    seq!['"'] + ser_string_body(v) + seq!['"']
}

/// The decimal digits of `n`, most significant first, no leading zeros.
pub open spec fn dec_digits(n: nat) -> Seq<char>
    decreases n,
{
    if n < 10 {
        seq![((48 + n) as u8) as char]
    } else {
        dec_digits(n / 10) + seq![((48 + n % 10) as u8) as char]
    }
}

/// A number as plain decimal.
pub open spec fn ser_u32(n: u32) -> Seq<char> {
    dec_digits(n as nat)
}

/// An inclusive bound pair.
pub open spec fn ser_range(r: Range) -> Seq<char> {
    "(min:"@ + ser_u32(r.min) + ",max:"@ + ser_u32(r.max) + ")"@
}

/// One drop-table entry.
pub open spec fn ser_drop(d: DropView) -> Seq<char> {
    "(item:"@ + ser_string(d.item) + ",amount:"@ + ser_range(d.amount) + ")"@
}

/// The tail of a drop list: a comma before each further entry.
pub open spec fn ser_drops_rest(ds: Seq<DropView>) -> Seq<char>
    decreases ds.len(),
{
    if ds.len() == 0 {
        Seq::<char>::empty()
    } else {
        ","@ + ser_drop(ds[0]) + ser_drops_rest(ds.drop_first())
    }
}

/// A bracketed, comma-separated drop list.
pub open spec fn ser_drops(ds: Seq<DropView>) -> Seq<char> {
    if ds.len() == 0 {
        "[]"@
    } else {
        "["@ + ser_drop(ds[0]) + ser_drops_rest(ds.drop_first()) + "]"@
    }
}

/// The shared body of the two payload-carrying status variants.
pub open spec fn ser_status_body(model: Seq<char>, drops: Seq<DropView>) -> Seq<char> {
    "model:"@ + ser_string(model) + ",drops:"@ + ser_drops(drops) + ")"@
}

/// A status as a tagged union over its four variant names.
pub open spec fn ser_status(st: StatusView) -> Seq<char> {
    match st {
        StatusView::Growing => "Growing"@,
        StatusView::Dead => "Dead"@,
        StatusView::Fruiting { model, drops } => "Fruiting("@ + ser_status_body(model, drops),
        StatusView::Seeding { model, drops } => "Seeding("@ + ser_status_body(model, drops),
    }
}

/// An optional status.
pub open spec fn ser_opt_status(st: Option<StatusView>) -> Seq<char> {
    match st {
        None => "None"@,
        Some(st) => "Some("@ + ser_status(st) + ")"@,
    }
}

/// One growth stage.
pub open spec fn ser_stage(st: StageView) -> Seq<char> {
    "(model:"@ + ser_string(st.model) + ",duration:"@ + ser_range(st.duration)
        + ",begin_status:"@ + ser_opt_status(st.begin_status) + ")"@
}

/// The tail of a stage list: a comma before each further entry.
pub open spec fn ser_stages_rest(sts: Seq<StageView>) -> Seq<char>
    decreases sts.len(),
{
    if sts.len() == 0 {
        Seq::<char>::empty()
    } else {
        ","@ + ser_stage(sts[0]) + ser_stages_rest(sts.drop_first())
    }
}

/// A bracketed, comma-separated stage list.
pub open spec fn ser_stages(sts: Seq<StageView>) -> Seq<char> {
    if sts.len() == 0 {
        "[]"@
    } else {
        "["@ + ser_stage(sts[0]) + ser_stages_rest(sts.drop_first()) + "]"@
    }
}

/// A whole crop definition.
pub open spec fn ser_def(d: DefView) -> Seq<char> {
    "(id:"@ + ser_string(d.id) + ",stages:"@ + ser_stages(d.stages) + ")"@
}

// ---------------------------------------------------------------------------
// The verified writer.
// ---------------------------------------------------------------------------
/// Writes the escaped body of a string literal from position `i` on.
fn write_string_body(out: &mut String, v: &str, i: usize)
    requires
        i <= v@.len(),
    ensures
        final(out)@ == old(out)@ + ser_string_body(v@.skip(i as int)),
    decreases v@.len() - i,
{
    if i < v.unicode_len() {
        let c = v.get_char(i);
        if c == '"' || c == '\\' {
            push_char(out, '\\');
        }
        push_char(out, c);
        write_string_body(out, v, i + 1);
        proof {
            assert(v@.skip(i as int).drop_first() =~= v@.skip(i + 1));
            assert(final(out)@ =~= old(out)@ + ser_string_body(v@.skip(i as int)));
        }
    } else {
        proof {
            assert(v@.skip(i as int).len() == 0);
            assert(final(out)@ =~= old(out)@ + ser_string_body(v@.skip(i as int)));
        }
    }
}

/// Writes a double-quoted, escaped string literal.
fn write_string(out: &mut String, v: &str)
    ensures
        final(out)@ == old(out)@ + ser_string(v@),
{
    push_char(out, '"');
    write_string_body(out, v, 0);
    push_char(out, '"');
    proof {
        assert(v@.skip(0) =~= v@);
        assert(final(out)@ =~= old(out)@ + ser_string(v@));
    }
}

/// Writes a number as plain decimal.
fn write_u32(out: &mut String, n: u32)
    ensures
        final(out)@ == old(out)@ + ser_u32(n),
    decreases n,
{
    if n < 10 {
        push_char(out, (48 + n as u8) as char);
    } else {
        write_u32(out, n / 10);
        push_char(out, (48 + (n % 10) as u8) as char);
        proof {
            assert(final(out)@ =~= old(out)@ + ser_u32(n));
        }
    }
}

/// Writes an inclusive bound pair.
fn write_range(out: &mut String, r: &Range)
    ensures
        final(out)@ == old(out)@ + ser_range(*r),
{
    out.append("(min:");
    write_u32(out, r.min);
    out.append(",max:");
    write_u32(out, r.max);
    out.append(")");
    proof {
        assert(final(out)@ =~= old(out)@ + ser_range(*r));
    }
}

/// Writes one drop-table entry.
fn write_drop(out: &mut String, d: &ItemDrop)
    ensures
        final(out)@ == old(out)@ + ser_drop(d@),
{
    out.append("(item:");
    write_string(out, d.item.0.as_str());
    out.append(",amount:");
    write_range(out, &d.amount);
    out.append(")");
    proof {
        assert(final(out)@ =~= old(out)@ + ser_drop(d@));
    }
}

/// Writes the tail of a drop list from position `i` on.
fn write_drops_rest(out: &mut String, ds: &Vec<ItemDrop>, i: usize)
    requires
        i <= ds@.len(),
    ensures
        final(out)@ == old(out)@ + ser_drops_rest(drops_view(ds@).skip(i as int)),
    decreases ds@.len() - i,
{
    if i < ds.len() {
        out.append(",");
        write_drop(out, &ds[i]);
        write_drops_rest(out, ds, i + 1);
        proof {
            assert(drops_view(ds@).skip(i as int).drop_first() =~= drops_view(ds@).skip(i + 1));
            assert(drops_view(ds@).skip(i as int)[0] == ds@[i as int]@);
            assert(final(out)@ =~= old(out)@ + ser_drops_rest(drops_view(ds@).skip(i as int)));
        }
    } else {
        proof {
            assert(drops_view(ds@).skip(i as int).len() == 0);
            assert(final(out)@ =~= old(out)@ + ser_drops_rest(drops_view(ds@).skip(i as int)));
        }
    }
}

/// Writes a bracketed drop list.
fn write_drops(out: &mut String, ds: &Vec<ItemDrop>)
    ensures
        final(out)@ == old(out)@ + ser_drops(drops_view(ds@)),
{
    if ds.len() == 0 {
        out.append("[]");
    } else {
        out.append("[");
        write_drop(out, &ds[0]);
        write_drops_rest(out, ds, 1);
        out.append("]");
        proof {
            assert(drops_view(ds@).skip(1) =~= drops_view(ds@).drop_first());
            assert(drops_view(ds@)[0] == ds@[0]@);
            assert(final(out)@ =~= old(out)@ + ser_drops(drops_view(ds@)));
        }
    }
}

/// Writes a status as a tagged union.
fn write_status(out: &mut String, st: &CropStatus)
    ensures
        final(out)@ == old(out)@ + ser_status(st@),
{
    match st {
        CropStatus::Growing => {
            out.append("Growing");
        },
        CropStatus::Dead => {
            out.append("Dead");
        },
        CropStatus::Fruiting { model, drops } => {
            out.append("Fruiting(");
            out.append("model:");
            write_string(out, model.as_str());
            out.append(",drops:");
            write_drops(out, drops);
            out.append(")");
            proof {
                assert(final(out)@ =~= old(out)@ + ser_status(st@));
            }
        },
        CropStatus::Seeding { model, drops } => {
            out.append("Seeding(");
            out.append("model:");
            write_string(out, model.as_str());
            out.append(",drops:");
            write_drops(out, drops);
            out.append(")");
            proof {
                assert(final(out)@ =~= old(out)@ + ser_status(st@));
            }
        },
    }
}

/// Writes an optional status.
fn write_opt_status(out: &mut String, st: &Option<CropStatus>)
    ensures
        final(out)@ == old(out)@ + ser_opt_status(match st {
            Some(s) => Some(s@),
            None => None,
        }),
{
    match st {
        None => {
            out.append("None");
        },
        Some(s) => {
            out.append("Some(");
            write_status(out, s);
            out.append(")");
            proof {
                assert(final(out)@ =~= old(out)@ + ser_opt_status(Some(s@)));
            }
        },
    }
}

/// Writes one growth stage.
fn write_stage(out: &mut String, st: &CropStage)
    ensures
        final(out)@ == old(out)@ + ser_stage(st@),
{
    out.append("(model:");
    write_string(out, st.model.as_str());
    out.append(",duration:");
    write_range(out, &st.duration);
    out.append(",begin_status:");
    write_opt_status(out, &st.begin_status);
    out.append(")");
    proof {
        assert(final(out)@ =~= old(out)@ + ser_stage(st@));
    }
}

/// Writes the tail of a stage list from position `i` on.
fn write_stages_rest(out: &mut String, sts: &Vec<CropStage>, i: usize)
    requires
        i <= sts@.len(),
    ensures
        final(out)@ == old(out)@ + ser_stages_rest(stages_view(sts@).skip(i as int)),
    decreases sts@.len() - i,
{
    if i < sts.len() {
        out.append(",");
        write_stage(out, &sts[i]);
        write_stages_rest(out, sts, i + 1);
        proof {
            assert(stages_view(sts@).skip(i as int).drop_first() =~= stages_view(sts@).skip(
                i + 1,
            ));
            assert(stages_view(sts@).skip(i as int)[0] == sts@[i as int]@);
            assert(final(out)@ =~= old(out)@ + ser_stages_rest(stages_view(sts@).skip(i as int)));
        }
    } else {
        proof {
            assert(stages_view(sts@).skip(i as int).len() == 0);
            assert(final(out)@ =~= old(out)@ + ser_stages_rest(stages_view(sts@).skip(i as int)));
        }
    }
}

/// Writes a bracketed stage list.
fn write_stages(out: &mut String, sts: &Vec<CropStage>)
    ensures
        final(out)@ == old(out)@ + ser_stages(stages_view(sts@)),
{
    if sts.len() == 0 {
        out.append("[]");
    } else {
        out.append("[");
        write_stage(out, &sts[0]);
        write_stages_rest(out, sts, 1);
        out.append("]");
        proof {
            assert(stages_view(sts@).skip(1) =~= stages_view(sts@).drop_first());
            assert(stages_view(sts@)[0] == sts@[0]@);
            assert(final(out)@ =~= old(out)@ + ser_stages(stages_view(sts@)));
        }
    }
}

/// Serializes a crop definition to its canonical file text.
pub fn serialize_definition(def: &CropDefinition) -> (r: String)
    ensures
        r@ == ser_def(def@),
{
    let mut out = String::new();
    out.append("(id:");
    write_string(&mut out, def.id.as_str());
    out.append(",stages:");
    write_stages(&mut out, &def.stages);
    out.append(")");
    proof {
        assert(out@ =~= ser_def(def@));
    }
    out
}

// ---------------------------------------------------------------------------
// Parsing, at the specification level. Each function consumes a prefix of
// the remaining text and hands back the parsed value with the remainder.
// ---------------------------------------------------------------------------
/// Consumes an exact literal.
pub open spec fn parse_tag(s: Seq<char>, tag: Seq<char>) -> Option<Seq<char>> {
    if tag.len() <= s.len() && s.take(tag.len() as int) == tag {
        Some(s.skip(tag.len() as int))
    } else {
        None
    }
}

/// Consumes the escaped body of a string literal up to and including the
/// closing quote, yielding the unescaped content.
pub open spec fn parse_string_body(s: Seq<char>) -> Option<(Seq<char>, Seq<char>)>
    decreases s.len(),
{
    if s.len() == 0 {
        None
    } else if s[0] == '"' {
        Some((Seq::<char>::empty(), s.drop_first()))
    } else if s[0] == '\\' {
        if s.len() >= 2 && (s[1] == '"' || s[1] == '\\') {
            match parse_string_body(s.skip(2)) {
                Some((t, r)) => Some((seq![s[1]] + t, r)),
                None => None,
            }
        } else {
            None
        }
    } else {
        match parse_string_body(s.drop_first()) {
            Some((t, r)) => Some((seq![s[0]] + t, r)),
            None => None,
        }
    }
}

/// Consumes a double-quoted, escaped string literal.
pub open spec fn parse_string(s: Seq<char>) -> Option<(Seq<char>, Seq<char>)> {
    if s.len() > 0 && s[0] == '"' {
        parse_string_body(s.drop_first())
    } else {
        None
    }
}

/// A decimal digit.
pub open spec fn is_digit(c: char) -> bool {
    48 <= (c as u32) && (c as u32) <= 57
}

/// The length of the leading run of decimal digits.
pub open spec fn digit_run(s: Seq<char>) -> int
    decreases s.len(),
{
    if s.len() > 0 && is_digit(s[0]) {
        1 + digit_run(s.drop_first())
    } else {
        0
    }
}

/// The value of a digit string, most significant digit first.
pub open spec fn digits_value(d: Seq<char>) -> int
    decreases d.len(),
{
    if d.len() == 0 {
        0
    } else {
        digits_value(d.drop_last()) * 10 + ((d.last() as u32) - 48)
    }
}

/// Powers of ten.
pub open spec fn pow10(n: nat) -> int
    decreases n,
{
    if n == 0 {
        1
    } else {
        10 * pow10((n - 1) as nat)
    }
}

/// Consumes a plain decimal number that fits a u32: at least one digit, no
/// leading zeros, at most ten digits, value within range.
pub open spec fn parse_u32(s: Seq<char>) -> Option<(u32, Seq<char>)> {
    let k = digit_run(s);
    if k == 0 {
        None
    } else if k > 1 && s[0] == '0' {
        None
    } else if k > 10 {
        None
    } else if digits_value(s.take(k)) > u32::MAX {
        None
    } else {
        Some((digits_value(s.take(k)) as u32, s.skip(k)))
    }
}

/// Consumes an inclusive bound pair; unordered bounds are malformed.
pub open spec fn parse_range(s: Seq<char>) -> Option<(Range, Seq<char>)> {
    match parse_tag(s, "(min:"@) {
        None => None,
        Some(s1) => match parse_u32(s1) {
            None => None,
            Some((mn, s2)) => match parse_tag(s2, ",max:"@) {
                None => None,
                Some(s3) => match parse_u32(s3) {
                    None => None,
                    Some((mx, s4)) => match parse_tag(s4, ")"@) {
                        None => None,
                        Some(s5) => if mn <= mx {
                            Some((Range { min: mn, max: mx }, s5))
                        } else {
                            None
                        },
                    },
                },
            },
        },
    }
}

/// Consumes one drop-table entry.
pub open spec fn parse_drop(s: Seq<char>) -> Option<(DropView, Seq<char>)> {
    match parse_tag(s, "(item:"@) {
        None => None,
        Some(s1) => match parse_string(s1) {
            None => None,
            Some((item, s2)) => match parse_tag(s2, ",amount:"@) {
                None => None,
                Some(s3) => match parse_range(s3) {
                    None => None,
                    Some((amount, s4)) => match parse_tag(s4, ")"@) {
                        None => None,
                        Some(s5) => Some((DropView { item, amount }, s5)),
                    },
                },
            },
        },
    }
}

/// Consumes the tail of a drop list: further comma-led entries, then the
/// closing bracket.
pub open spec fn parse_drops_rest(s: Seq<char>) -> Option<(Seq<DropView>, Seq<char>)>
    decreases s.len(),
{
    if s.len() == 0 {
        None
    } else if s[0] == ']' {
        Some((Seq::<DropView>::empty(), s.drop_first()))
    } else if s[0] == ',' {
        match parse_drop(s.drop_first()) {
            None => None,
            Some((d, r)) => if r.len() < s.len() {
                match parse_drops_rest(r) {
                    Some((ds, r2)) => Some((seq![d] + ds, r2)),
                    None => None,
                }
            } else {
                None
            },
        }
    } else {
        None
    }
}

/// Consumes a bracketed drop list.
pub open spec fn parse_drops(s: Seq<char>) -> Option<(Seq<DropView>, Seq<char>)> {
    if s.len() > 0 && s[0] == '[' {
        let s1 = s.drop_first();
        if s1.len() > 0 && s1[0] == ']' {
            Some((Seq::<DropView>::empty(), s1.drop_first()))
        } else {
            match parse_drop(s1) {
                None => None,
                Some((d, r)) => match parse_drops_rest(r) {
                    Some((ds, r2)) => Some((seq![d] + ds, r2)),
                    None => None,
                },
            }
        }
    } else {
        None
    }
}

/// Consumes the shared body of the two payload-carrying status variants.
pub open spec fn parse_status_body(s: Seq<char>) -> Option<((Seq<char>, Seq<DropView>), Seq<char>)> {
    match parse_tag(s, "model:"@) {
        None => None,
        Some(s1) => match parse_string(s1) {
            None => None,
            Some((model, s2)) => match parse_tag(s2, ",drops:"@) {
                None => None,
                Some(s3) => match parse_drops(s3) {
                    None => None,
                    Some((drops, s4)) => match parse_tag(s4, ")"@) {
                        None => None,
                        Some(s5) => Some(((model, drops), s5)),
                    },
                },
            },
        },
    }
}

/// Consumes a status, keyed by the variant's first letter.
pub open spec fn parse_status(s: Seq<char>) -> Option<(StatusView, Seq<char>)> {
    if s.len() == 0 {
        None
    } else if s[0] == 'G' {
        match parse_tag(s, "Growing"@) {
            Some(r) => Some((StatusView::Growing, r)),
            None => None,
        }
    } else if s[0] == 'D' {
        match parse_tag(s, "Dead"@) {
            Some(r) => Some((StatusView::Dead, r)),
            None => None,
        }
    } else if s[0] == 'F' {
        match parse_tag(s, "Fruiting("@) {
            None => None,
            Some(s1) => match parse_status_body(s1) {
                Some(((model, drops), r)) => Some((StatusView::Fruiting { model, drops }, r)),
                None => None,
            },
        }
    } else if s[0] == 'S' {
        match parse_tag(s, "Seeding("@) {
            None => None,
            Some(s1) => match parse_status_body(s1) {
                Some(((model, drops), r)) => Some((StatusView::Seeding { model, drops }, r)),
                None => None,
            },
        }
    } else {
        None
    }
}

/// Consumes an optional status.
pub open spec fn parse_opt_status(s: Seq<char>) -> Option<(Option<StatusView>, Seq<char>)> {
    if s.len() == 0 {
        None
    } else if s[0] == 'N' {
        match parse_tag(s, "None"@) {
            Some(r) => Some((Option::<StatusView>::None, r)),
            None => None,
        }
    } else if s[0] == 'S' {
        match parse_tag(s, "Some("@) {
            None => None,
            Some(s1) => match parse_status(s1) {
                None => None,
                Some((st, s2)) => match parse_tag(s2, ")"@) {
                    Some(r) => Some((Some(st), r)),
                    None => None,
                },
            },
        }
    } else {
        None
    }
}

/// Consumes one growth stage.
pub open spec fn parse_stage(s: Seq<char>) -> Option<(StageView, Seq<char>)> {
    match parse_tag(s, "(model:"@) {
        None => None,
        Some(s1) => match parse_string(s1) {
            None => None,
            Some((model, s2)) => match parse_tag(s2, ",duration:"@) {
                None => None,
                Some(s3) => match parse_range(s3) {
                    None => None,
                    Some((duration, s4)) => match parse_tag(s4, ",begin_status:"@) {
                        None => None,
                        Some(s5) => match parse_opt_status(s5) {
                            None => None,
                            Some((begin_status, s6)) => match parse_tag(s6, ")"@) {
                                None => None,
                                Some(s7) => Some(
                                    (StageView { model, duration, begin_status }, s7),
                                ),
                            },
                        },
                    },
                },
            },
        },
    }
}

/// Consumes the tail of a stage list.
pub open spec fn parse_stages_rest(s: Seq<char>) -> Option<(Seq<StageView>, Seq<char>)>
    decreases s.len(),
{
    if s.len() == 0 {
        None
    } else if s[0] == ']' {
        Some((Seq::<StageView>::empty(), s.drop_first()))
    } else if s[0] == ',' {
        match parse_stage(s.drop_first()) {
            None => None,
            Some((st, r)) => if r.len() < s.len() {
                match parse_stages_rest(r) {
                    Some((sts, r2)) => Some((seq![st] + sts, r2)),
                    None => None,
                }
            } else {
                None
            },
        }
    } else {
        None
    }
}

/// Consumes a bracketed stage list.
pub open spec fn parse_stages(s: Seq<char>) -> Option<(Seq<StageView>, Seq<char>)> {
    if s.len() > 0 && s[0] == '[' {
        let s1 = s.drop_first();
        if s1.len() > 0 && s1[0] == ']' {
            Some((Seq::<StageView>::empty(), s1.drop_first()))
        } else {
            match parse_stage(s1) {
                None => None,
                Some((st, r)) => match parse_stages_rest(r) {
                    Some((sts, r2)) => Some((seq![st] + sts, r2)),
                    None => None,
                },
            }
        }
    } else {
        None
    }
}

/// Consumes a whole crop definition.
pub open spec fn parse_def(s: Seq<char>) -> Option<(DefView, Seq<char>)> {
    match parse_tag(s, "(id:"@) {
        None => None,
        Some(s1) => match parse_string(s1) {
            None => None,
            Some((id, s2)) => match parse_tag(s2, ",stages:"@) {
                None => None,
                Some(s3) => match parse_stages(s3) {
                    None => None,
                    Some((stages, s4)) => match parse_tag(s4, ")"@) {
                        None => None,
                        Some(s5) => Some((DefView { id, stages }, s5)),
                    },
                },
            },
        },
    }
}

/// A definition file's whole text: one definition and nothing after it.
pub open spec fn parse_definition_text(s: Seq<char>) -> Option<DefView> {
    match parse_def(s) {
        Some((d, r)) => if r.len() == 0 {
            Some(d)
        } else {
            None
        },
        None => None,
    }
}

// ---------------------------------------------------------------------------
// The verified reader.
// ---------------------------------------------------------------------------
/// Consumes the exact literal `tag` at position `i`.
fn eat_tag(s: &str, i: usize, tag: &str) -> (r: Option<usize>)
    requires
        i <= s@.len(),
    ensures
        r matches Some(j) ==> i <= j <= s@.len() && j - i == tag@.len() && parse_tag(
            s@.skip(i as int),
            tag@,
        ) == Some(s@.skip(j as int)),
        r is None ==> parse_tag(s@.skip(i as int), tag@) is None,
{
    let n = s.unicode_len();
    let tn = tag.unicode_len();
    if tn > n - i {
        return None;
    }
    let mut k: usize = 0;
    while k < tn
        invariant
            k <= tn,
            i + tn <= n,
            n == s@.len(),
            tn == tag@.len(),
            forall|m: int| 0 <= m < k ==> s@.skip(i as int)[m] == tag@[m],
        decreases tn - k,
    {
        if s.get_char(i + k) != tag.get_char(k) {
            proof {
                assert(s@.skip(i as int)[k as int] != tag@[k as int]);
                assert(s@.skip(i as int).take(tn as int) != tag@);
            }
            return None;
        }
        k = k + 1;
    }
    proof {
        assert(s@.skip(i as int).take(tn as int) =~= tag@);
        assert(s@.skip(i as int).skip(tn as int) =~= s@.skip(i + tn));
    }
    Some(i + tn)
}

/// Consumes the escaped body of a string literal, appending the unescaped
/// content onto `out`.
fn p_string_body(s: &str, i: usize, out: &mut String) -> (r: Option<usize>)
    requires
        i <= s@.len(),
    ensures
        r matches Some(j) ==> i < j <= s@.len() && (parse_string_body(s@.skip(i as int))
            matches Some(p) && final(out)@ == old(out)@ + p.0 && p.1 == s@.skip(j as int)),
        r is None ==> parse_string_body(s@.skip(i as int)) is None,
    decreases s@.len() - i,
{
    let n = s.unicode_len();
    if i >= n {
        return None;
    }
    let c = s.get_char(i);
    if c == '"' {
        proof {
            assert(s@.skip(i as int).drop_first() =~= s@.skip(i + 1));
            assert(out@ =~= out@ + Seq::<char>::empty());
        }
        Some(i + 1)
    } else if c == '\\' {
        if i + 1 < n {
            let c2 = s.get_char(i + 1);
            if c2 == '"' || c2 == '\\' {
                push_char(out, c2);
                let ghost mid = out@;
                let r = p_string_body(s, i + 2, out);
                proof {
                    assert(s@.skip(i as int).skip(2) =~= s@.skip(i + 2));
                    if r is Some {
                        let p = parse_string_body(s@.skip(i + 2))->Some_0;
                        assert(out@ == mid + p.0);
                        assert(out@ =~= old(out)@ + (seq![c2] + p.0));
                    }
                }
                r
            } else {
                proof {
                    assert(s@.skip(i as int).len() >= 2);
                    assert(s@.skip(i as int)[1] == c2);
                }
                None
            }
        } else {
            proof {
                assert(s@.skip(i as int).len() == 1);
            }
            None
        }
    } else {
        push_char(out, c);
        let ghost mid = out@;
        let r = p_string_body(s, i + 1, out);
        proof {
            assert(s@.skip(i as int).drop_first() =~= s@.skip(i + 1));
            if r is Some {
                let p = parse_string_body(s@.skip(i + 1))->Some_0;
                assert(out@ == mid + p.0);
                assert(out@ =~= old(out)@ + (seq![c] + p.0));
            }
        }
        r
    }
}

/// Consumes a double-quoted, escaped string literal.
fn p_string(s: &str, i: usize) -> (r: Option<(String, usize)>)
    requires
        i <= s@.len(),
    ensures
        r matches Some((v, j)) ==> i < j <= s@.len() && parse_string(s@.skip(i as int)) == Some(
            (v@, s@.skip(j as int)),
        ),
        r is None ==> parse_string(s@.skip(i as int)) is None,
{
    let n = s.unicode_len();
    if i >= n || s.get_char(i) != '"' {
        return None;
    }
    let mut out = String::new();
    proof {
        assert(s@.skip(i as int).drop_first() =~= s@.skip(i + 1));
    }
    match p_string_body(s, i + 1, &mut out) {
        Some(j) => {
            proof {
                let p = parse_string_body(s@.skip(i + 1))->Some_0;
                assert(out@ =~= Seq::<char>::empty() + p.0);
            }
            Some((out, j))
        },
        None => None,
    }
}

/// pow10 grows with its exponent.
proof fn lemma_pow10_mono(a: nat, b: nat)
    requires
        a <= b,
    ensures
        pow10(a) <= pow10(b),
        pow10(a) >= 1,
    decreases b,
{
    if a == 0 {
        if b > 0 {
            lemma_pow10_mono(0, (b - 1) as nat);
        }
    } else {
        lemma_pow10_mono((a - 1) as nat, (b - 1) as nat);
    }
}

/// A digit string's value is nonnegative and below pow10 of its length.
proof fn lemma_digits_value_bound(d: Seq<char>)
    requires
        forall|m: int| 0 <= m < d.len() ==> is_digit(#[trigger] d[m]),
    ensures
        0 <= digits_value(d) < pow10(d.len() as nat),
    decreases d.len(),
{
    if d.len() > 0 {
        lemma_digits_value_bound(d.drop_last());
    }
}

/// The leading digit run of a text whose first `m` characters are digits
/// and whose next character (if any) is not, is exactly `m` long.
proof fn lemma_digit_run_exact(t: Seq<char>, m: int)
    requires
        0 <= m <= t.len(),
        forall|j: int| 0 <= j < m ==> is_digit(#[trigger] t[j]),
        m == t.len() || !is_digit(t[m]),
    ensures
        digit_run(t) == m,
    decreases m,
{
    if m == 0 {
    } else {
        lemma_digit_run_exact(t.drop_first(), m - 1);
    }
}

/// Whether the character at `k` is a decimal digit.
fn digit_at(s: &str, k: usize) -> (r: bool)
    requires
        k < s@.len(),
    ensures
        r == is_digit(s@[k as int]),
{
    let d = s.get_char(k) as u32;
    48 <= d && d <= 57
}

/// Consumes a plain decimal u32.
fn p_u32(s: &str, i: usize) -> (r: Option<(u32, usize)>)
    requires
        i <= s@.len(),
    ensures
        r matches Some((v, j)) ==> i < j <= s@.len() && parse_u32(s@.skip(i as int)) == Some(
            (v, s@.skip(j as int)),
        ),
        r is None ==> parse_u32(s@.skip(i as int)) is None,
{
    let n = s.unicode_len();
    let ghost t = s@.skip(i as int);
    // Find the end of the digit run.
    let mut k: usize = i;
    while k < n && digit_at(s, k)
        invariant
            i <= k <= n,
            n == s@.len(),
            t == s@.skip(i as int),
            forall|j: int| 0 <= j < k - i ==> is_digit(#[trigger] t[j]),
        decreases n - k,
    {
        k = k + 1;
    }
    proof {
        lemma_digit_run_exact(t, k - i);
    }
    if k == i {
        return None;
    }
    if k - i > 1 && s.get_char(i) == '0' {
        return None;
    }
    if k - i > 10 {
        return None;
    }
    // Accumulate the value; at most ten digits fit comfortably in a u64.
    let mut acc: u64 = 0;
    let mut m: usize = i;
    proof {
        assert(t.take(0) =~= Seq::<char>::empty());
        assert(pow10(0) == 1);
        assert(pow10(1) == 10);
        assert(pow10(2) == 100);
        assert(pow10(3) == 1000);
        assert(pow10(4) == 10000);
        assert(pow10(5) == 100000);
        assert(pow10(6) == 1000000);
        assert(pow10(7) == 10000000);
        assert(pow10(8) == 100000000);
        assert(pow10(9) == 1000000000);
        assert(pow10(10) == 10000000000);
    }
    while m < k
        invariant
            i <= m <= k <= n,
            k - i <= 10,
            n == s@.len(),
            t == s@.skip(i as int),
            forall|j: int| 0 <= j < k - i ==> is_digit(#[trigger] t[j]),
            acc == digits_value(t.take(m - i)),
            0 <= acc < pow10((m - i) as nat),
            pow10(10) == 10000000000,
        decreases k - m,
    {
        let d = s.get_char(m) as u32;
        proof {
            assert(t[m - i] == s@[m as int]);
            assert(is_digit(t[m - i]));
            lemma_pow10_mono(((m - i) + 1) as nat, 10);
            assert(t.take(m + 1 - i).drop_last() =~= t.take(m - i));
            assert(t.take(m + 1 - i).last() == t[m - i]);
        }
        acc = acc * 10 + (d - 48) as u64;
        m = m + 1;
    }
    proof {
        assert(t.take(k - i) =~= t.take(digit_run(t)));
    }
    if acc > u32::MAX as u64 {
        return None;
    }
    proof {
        assert(s@.skip(i as int).skip(k - i) =~= s@.skip(k as int));
    }
    Some((acc as u32, k))
}

/// Consumes an inclusive bound pair; unordered bounds are malformed.
fn p_range(s: &str, i: usize) -> (r: Option<(Range, usize)>)
    requires
        i <= s@.len(),
    ensures
        r matches Some((v, j)) ==> i < j <= s@.len() && parse_range(s@.skip(i as int)) == Some(
            (v, s@.skip(j as int)),
        ) && v.valid(),
        r is None ==> parse_range(s@.skip(i as int)) is None,
{
    let j1 = match eat_tag(s, i, "(min:") {
        Some(j) => j,
        None => return None,
    };
    let (mn, j2) = match p_u32(s, j1) {
        Some(x) => x,
        None => return None,
    };
    let j3 = match eat_tag(s, j2, ",max:") {
        Some(j) => j,
        None => return None,
    };
    let (mx, j4) = match p_u32(s, j3) {
        Some(x) => x,
        None => return None,
    };
    let j5 = match eat_tag(s, j4, ")") {
        Some(j) => j,
        None => return None,
    };
    if mn <= mx {
        Some((Range { min: mn, max: mx }, j5))
    } else {
        None
    }
}

/// Consumes one drop-table entry.
fn p_drop(s: &str, i: usize) -> (r: Option<(ItemDrop, usize)>)
    requires
        i <= s@.len(),
    ensures
        r matches Some((v, j)) ==> i < j <= s@.len() && parse_drop(s@.skip(i as int)) == Some(
            (v@, s@.skip(j as int)),
        ) && v@.amount.valid(),
        r is None ==> parse_drop(s@.skip(i as int)) is None,
{
    let j1 = match eat_tag(s, i, "(item:") {
        Some(j) => j,
        None => return None,
    };
    let (item, j2) = match p_string(s, j1) {
        Some(x) => x,
        None => return None,
    };
    let j3 = match eat_tag(s, j2, ",amount:") {
        Some(j) => j,
        None => return None,
    };
    let (amount, j4) = match p_range(s, j3) {
        Some(x) => x,
        None => return None,
    };
    let j5 = match eat_tag(s, j4, ")") {
        Some(j) => j,
        None => return None,
    };
    Some((ItemDrop { item: ItemId(item), amount }, j5))
}

/// Consumes the tail of a drop list, appending the entries onto `acc`.
fn p_drops_rest(s: &str, i: usize, acc: &mut Vec<ItemDrop>) -> (r: Option<usize>)
    requires
        i <= s@.len(),
    ensures
        r matches Some(j) ==> i < j <= s@.len() && (parse_drops_rest(s@.skip(i as int))
            matches Some(p) && drops_view(final(acc)@) == drops_view(old(acc)@) + p.0 && p.1
            == s@.skip(j as int) && drops_valid(p.0)),
        r is None ==> parse_drops_rest(s@.skip(i as int)) is None,
    decreases s@.len() - i,
{
    let n = s.unicode_len();
    if i >= n {
        return None;
    }
    let c = s.get_char(i);
    if c == ']' {
        proof {
            assert(s@.skip(i as int).drop_first() =~= s@.skip(i + 1));
            assert(drops_view(acc@) =~= drops_view(acc@) + Seq::<DropView>::empty());
        }
        return Some(i + 1);
    }
    if c != ',' {
        return None;
    }
    proof {
        assert(s@.skip(i as int).drop_first() =~= s@.skip(i + 1));
    }
    let (d, j) = match p_drop(s, i + 1) {
        Some(x) => x,
        None => return None,
    };
    let ghost dv = d@;
    let ghost acc0 = drops_view(acc@);
    acc.push(d);
    proof {
        assert(drops_view(acc@) =~= acc0 + seq![dv]);
        assert(s@.skip(j as int).len() < s@.skip(i as int).len());
    }
    match p_drops_rest(s, j, acc) {
        Some(j2) => {
            proof {
                let p = parse_drops_rest(s@.skip(j as int))->Some_0;
                assert(drops_view(acc@) =~= acc0 + (seq![dv] + p.0));
            }
            Some(j2)
        },
        None => None,
    }
}

/// Consumes a bracketed drop list.
fn p_drops(s: &str, i: usize) -> (r: Option<(Vec<ItemDrop>, usize)>)
    requires
        i <= s@.len(),
    ensures
        r matches Some((v, j)) ==> i < j <= s@.len() && parse_drops(s@.skip(i as int)) == Some(
            (drops_view(v@), s@.skip(j as int)),
        ) && drops_valid(drops_view(v@)),
        r is None ==> parse_drops(s@.skip(i as int)) is None,
{
    let n = s.unicode_len();
    if i >= n || s.get_char(i) != '[' {
        return None;
    }
    proof {
        assert(s@.skip(i as int).drop_first() =~= s@.skip(i + 1));
    }
    if i + 1 < n && s.get_char(i + 1) == ']' {
        let out: Vec<ItemDrop> = Vec::new();
        proof {
            assert(s@.skip(i + 1).drop_first() =~= s@.skip(i + 2));
            assert(drops_view(out@) =~= Seq::<DropView>::empty());
        }
        return Some((out, i + 2));
    }
    let (d, j) = match p_drop(s, i + 1) {
        Some(x) => x,
        None => {
            proof {
                let s1 = s@.skip(i + 1);
                if s1.len() > 0 && s1[0] == ']' {
                    assert(s@[i + 1] == ']');
                }
            }
            return None;
        },
    };
    let ghost dv = d@;
    let mut out: Vec<ItemDrop> = Vec::new();
    out.push(d);
    proof {
        assert(drops_view(out@) =~= seq![dv]);
    }
    match p_drops_rest(s, j, &mut out) {
        Some(j2) => {
            proof {
                let p = parse_drops_rest(s@.skip(j as int))->Some_0;
                assert(drops_view(out@) =~= seq![dv] + p.0);
            }
            Some((out, j2))
        },
        None => None,
    }
}

/// Consumes the shared body of the two payload-carrying status variants.
fn p_status_body(s: &str, i: usize) -> (r: Option<((String, Vec<ItemDrop>), usize)>)
    requires
        i <= s@.len(),
    ensures
        r matches Some(((m, ds), j)) ==> i < j <= s@.len() && parse_status_body(
            s@.skip(i as int),
        ) == Some(((m@, drops_view(ds@)), s@.skip(j as int))) && drops_valid(drops_view(ds@)),
        r is None ==> parse_status_body(s@.skip(i as int)) is None,
{
    let j1 = match eat_tag(s, i, "model:") {
        Some(j) => j,
        None => return None,
    };
    let (model, j2) = match p_string(s, j1) {
        Some(x) => x,
        None => return None,
    };
    let j3 = match eat_tag(s, j2, ",drops:") {
        Some(j) => j,
        None => return None,
    };
    let (drops, j4) = match p_drops(s, j3) {
        Some(x) => x,
        None => return None,
    };
    let j5 = match eat_tag(s, j4, ")") {
        Some(j) => j,
        None => return None,
    };
    Some(((model, drops), j5))
}

/// Consumes a status, keyed by the variant's first letter.
fn p_status(s: &str, i: usize) -> (r: Option<(CropStatus, usize)>)
    requires
        i <= s@.len(),
    ensures
        r matches Some((v, j)) ==> i < j <= s@.len() && parse_status(s@.skip(i as int)) == Some(
            (v@, s@.skip(j as int)),
        ) && crate::crops::status_wf(v@),
        r is None ==> parse_status(s@.skip(i as int)) is None,
{
    let n = s.unicode_len();
    if i >= n {
        return None;
    }
    let c = s.get_char(i);
    if c == 'G' {
        proof {
            reveal_strlit("Growing");
        }
        match eat_tag(s, i, "Growing") {
            Some(j) => Some((CropStatus::Growing, j)),
            None => None,
        }
    } else if c == 'D' {
        proof {
            reveal_strlit("Dead");
        }
        match eat_tag(s, i, "Dead") {
            Some(j) => Some((CropStatus::Dead, j)),
            None => None,
        }
    } else if c == 'F' {
        let j1 = match eat_tag(s, i, "Fruiting(") {
            Some(j) => j,
            None => return None,
        };
        match p_status_body(s, j1) {
            Some(((model, drops), j2)) => Some((CropStatus::Fruiting { model, drops }, j2)),
            None => None,
        }
    } else if c == 'S' {
        let j1 = match eat_tag(s, i, "Seeding(") {
            Some(j) => j,
            None => return None,
        };
        match p_status_body(s, j1) {
            Some(((model, drops), j2)) => Some((CropStatus::Seeding { model, drops }, j2)),
            None => None,
        }
    } else {
        None
    }
}

/// Consumes an optional status.
fn p_opt_status(s: &str, i: usize) -> (r: Option<(Option<CropStatus>, usize)>)
    requires
        i <= s@.len(),
    ensures
        r matches Some((v, j)) ==> i < j <= s@.len() && parse_opt_status(s@.skip(i as int))
            == Some(
            (
                match v {
                    Some(st) => Some(st@),
                    None => None,
                },
                s@.skip(j as int),
            ),
        ) && (v matches Some(st) ==> crate::crops::status_wf(st@)),
        r is None ==> parse_opt_status(s@.skip(i as int)) is None,
{
    let n = s.unicode_len();
    if i >= n {
        return None;
    }
    let c = s.get_char(i);
    if c == 'N' {
        proof {
            reveal_strlit("None");
        }
        match eat_tag(s, i, "None") {
            Some(j) => Some((None, j)),
            None => None,
        }
    } else if c == 'S' {
        let j1 = match eat_tag(s, i, "Some(") {
            Some(j) => j,
            None => return None,
        };
        let (st, j2) = match p_status(s, j1) {
            Some(x) => x,
            None => return None,
        };
        match eat_tag(s, j2, ")") {
            Some(j3) => Some((Some(st), j3)),
            None => None,
        }
    } else {
        None
    }
}

/// Consumes one growth stage.
fn p_stage(s: &str, i: usize) -> (r: Option<(CropStage, usize)>)
    requires
        i <= s@.len(),
    ensures
        r matches Some((v, j)) ==> i < j <= s@.len() && parse_stage(s@.skip(i as int)) == Some(
            (v@, s@.skip(j as int)),
        ) && crate::crops::stage_wf(v@),
        r is None ==> parse_stage(s@.skip(i as int)) is None,
{
    let j1 = match eat_tag(s, i, "(model:") {
        Some(j) => j,
        None => return None,
    };
    let (model, j2) = match p_string(s, j1) {
        Some(x) => x,
        None => return None,
    };
    let j3 = match eat_tag(s, j2, ",duration:") {
        Some(j) => j,
        None => return None,
    };
    let (duration, j4) = match p_range(s, j3) {
        Some(x) => x,
        None => return None,
    };
    let j5 = match eat_tag(s, j4, ",begin_status:") {
        Some(j) => j,
        None => return None,
    };
    let (begin_status, j6) = match p_opt_status(s, j5) {
        Some(x) => x,
        None => return None,
    };
    let j7 = match eat_tag(s, j6, ")") {
        Some(j) => j,
        None => return None,
    };
    Some((CropStage { model, duration, begin_status }, j7))
}

/// Consumes the tail of a stage list, appending the entries onto `acc`.
fn p_stages_rest(s: &str, i: usize, acc: &mut Vec<CropStage>) -> (r: Option<usize>)
    requires
        i <= s@.len(),
    ensures
        r matches Some(j) ==> i < j <= s@.len() && (parse_stages_rest(s@.skip(i as int))
            matches Some(p) && stages_view(final(acc)@) == stages_view(old(acc)@) + p.0 && p.1
            == s@.skip(j as int) && stages_wf(p.0)),
        r is None ==> parse_stages_rest(s@.skip(i as int)) is None,
    decreases s@.len() - i,
{
    let n = s.unicode_len();
    if i >= n {
        return None;
    }
    let c = s.get_char(i);
    if c == ']' {
        proof {
            assert(s@.skip(i as int).drop_first() =~= s@.skip(i + 1));
            assert(stages_view(acc@) =~= stages_view(acc@) + Seq::<StageView>::empty());
        }
        return Some(i + 1);
    }
    if c != ',' {
        return None;
    }
    proof {
        assert(s@.skip(i as int).drop_first() =~= s@.skip(i + 1));
    }
    let (st, j) = match p_stage(s, i + 1) {
        Some(x) => x,
        None => return None,
    };
    let ghost sv = st@;
    let ghost acc0 = stages_view(acc@);
    acc.push(st);
    proof {
        assert(stages_view(acc@) =~= acc0 + seq![sv]);
        assert(s@.skip(j as int).len() < s@.skip(i as int).len());
    }
    match p_stages_rest(s, j, acc) {
        Some(j2) => {
            proof {
                let p = parse_stages_rest(s@.skip(j as int))->Some_0;
                assert(stages_view(acc@) =~= acc0 + (seq![sv] + p.0));
                assert(stages_wf(seq![sv] + p.0));
            }
            Some(j2)
        },
        None => None,
    }
}

/// Consumes a bracketed stage list.
fn p_stages(s: &str, i: usize) -> (r: Option<(Vec<CropStage>, usize)>)
    requires
        i <= s@.len(),
    ensures
        r matches Some((v, j)) ==> i < j <= s@.len() && parse_stages(s@.skip(i as int)) == Some(
            (stages_view(v@), s@.skip(j as int)),
        ) && stages_wf(stages_view(v@)),
        r is None ==> parse_stages(s@.skip(i as int)) is None,
{
    let n = s.unicode_len();
    if i >= n || s.get_char(i) != '[' {
        return None;
    }
    proof {
        assert(s@.skip(i as int).drop_first() =~= s@.skip(i + 1));
    }
    if i + 1 < n && s.get_char(i + 1) == ']' {
        let out: Vec<CropStage> = Vec::new();
        proof {
            assert(s@.skip(i + 1).drop_first() =~= s@.skip(i + 2));
            assert(stages_view(out@) =~= Seq::<StageView>::empty());
        }
        return Some((out, i + 2));
    }
    let (st, j) = match p_stage(s, i + 1) {
        Some(x) => x,
        None => {
            proof {
                let s1 = s@.skip(i + 1);
                if s1.len() > 0 && s1[0] == ']' {
                    assert(s@[i + 1] == ']');
                }
            }
            return None;
        },
    };
    let ghost sv = st@;
    let mut out: Vec<CropStage> = Vec::new();
    out.push(st);
    proof {
        assert(stages_view(out@) =~= seq![sv]);
    }
    match p_stages_rest(s, j, &mut out) {
        Some(j2) => {
            proof {
                let p = parse_stages_rest(s@.skip(j as int))->Some_0;
                assert(stages_view(out@) =~= seq![sv] + p.0);
                assert(stages_wf(seq![sv] + p.0));
            }
            Some((out, j2))
        },
        None => None,
    }
}

/// Parses a whole definition file's text. A malformed text — bad syntax, an
/// unordered bound pair, a number out of range, trailing characters — is
/// rejected; the caller logs it and abandons only the affected planting.
pub fn parse_definition(s: &str) -> (r: Result<CropDefinition, ()>)
    ensures
        r matches Ok(d) ==> parse_definition_text(s@) == Some(d@) && stages_wf(d@.stages),
        r is Err ==> parse_definition_text(s@) is None,
{
    proof {
        assert(s@.skip(0) =~= s@);
    }
    let j1 = match eat_tag(s, 0, "(id:") {
        Some(j) => j,
        None => return Err(()),
    };
    let (id, j2) = match p_string(s, j1) {
        Some(x) => x,
        None => return Err(()),
    };
    let j3 = match eat_tag(s, j2, ",stages:") {
        Some(j) => j,
        None => return Err(()),
    };
    let (stages, j4) = match p_stages(s, j3) {
        Some(x) => x,
        None => return Err(()),
    };
    let j5 = match eat_tag(s, j4, ")") {
        Some(j) => j,
        None => return Err(()),
    };
    if j5 != s.unicode_len() {
        return Err(());
    }
    Ok(CropDefinition { id, stages })
}

// ---------------------------------------------------------------------------
// Round trip: parsing a serialized value yields the value back.
// ---------------------------------------------------------------------------
/// A literal parses as itself.
proof fn lemma_rt_tag(tag: Seq<char>, rest: Seq<char>)
    ensures
        parse_tag(tag + rest, tag) == Some(rest),
{
    assert((tag + rest).take(tag.len() as int) =~= tag);
    assert((tag + rest).skip(tag.len() as int) =~= rest);
}

/// A serialized string body parses back to the unescaped content.
proof fn lemma_rt_string_body(v: Seq<char>, rest: Seq<char>)
    ensures
        parse_string_body(ser_string_body(v) + seq!['"'] + rest) == Some((v, rest)),
    decreases v.len(),
{
    let s = ser_string_body(v) + seq!['"'] + rest;
    if v.len() == 0 {
        assert(s =~= seq!['"'] + rest);
        assert(s[0] == '"');
        assert(s.drop_first() =~= rest);
    } else {
        let c = v[0];
        lemma_rt_string_body(v.drop_first(), rest);
        let s2 = ser_string_body(v.drop_first()) + seq!['"'] + rest;
        if c == '"' || c == '\\' {
            assert(s =~= seq!['\\', c] + s2);
            assert(s[0] == '\\' && s[1] == c);
            assert(s.skip(2) =~= s2);
            assert(seq![c] + v.drop_first() =~= v);
        } else {
            assert(s =~= seq![c] + s2);
            assert(s[0] == c);
            assert(s.drop_first() =~= s2);
            assert(seq![c] + v.drop_first() =~= v);
        }
    }
}

/// A serialized string literal parses back to its content.
proof fn lemma_rt_string(v: Seq<char>, rest: Seq<char>)
    ensures
        parse_string(ser_string(v) + rest) == Some((v, rest)),
{
    let s = ser_string(v) + rest;
    assert(s =~= seq!['"'] + (ser_string_body(v) + seq!['"'] + rest));
    assert(s[0] == '"');
    assert(s.drop_first() =~= ser_string_body(v) + seq!['"'] + rest);
    lemma_rt_string_body(v, rest);
}

/// Decimal digits are digits; the leading one is nonzero unless the number
/// is a single zero.
proof fn lemma_dec_digits_shape(n: nat)
    ensures
        dec_digits(n).len() >= 1,
        forall|m: int| 0 <= m < dec_digits(n).len() ==> is_digit(#[trigger] dec_digits(n)[m]),
        dec_digits(n).len() > 1 ==> dec_digits(n)[0] != '0',
        n < 10 ==> dec_digits(n).len() == 1,
        digits_value(dec_digits(n)) == n,
    decreases n,
{
    if n < 10 {
        assert(dec_digits(n) =~= seq![((48 + n) as u8) as char]);
        assert(dec_digits(n).drop_last() =~= Seq::<char>::empty());
        assert(dec_digits(n).last() == ((48 + n) as u8) as char);
        assert((dec_digits(n).last() as u32) == 48 + n);
        assert(digits_value(Seq::<char>::empty()) == 0);
        assert(digits_value(dec_digits(n)) == ((48 + n) - 48));
    } else {
        lemma_dec_digits_shape(n / 10);
        let d = dec_digits(n / 10);
        let last = ((48 + n % 10) as u8) as char;
        assert(dec_digits(n) =~= d + seq![last]);
        assert(dec_digits(n).drop_last() =~= d);
        assert(dec_digits(n).last() == last);
        assert((last as u32) == 48 + n % 10);
        assert(digits_value(dec_digits(n)) == digits_value(d) * 10 + (n % 10));
        assert(digits_value(d) == n / 10);
        assert(10 * (n / 10) + n % 10 == n);
        assert(dec_digits(n)[0] == d[0]);
        assert(n / 10 >= 1);
        if n / 10 < 10 {
            assert(d =~= seq![((48 + n / 10) as u8) as char]);
            assert((d[0] as u32) == 48 + n / 10);
            assert(('0' as u32) == 48);
            assert(d[0] != '0');
        } else {
            assert(d =~= dec_digits(n / 100) + seq![((48 + (n / 10) % 10) as u8) as char]);
            assert(d.len() > 1);
        }
    }
}

/// A number below pow10(k) has at most k decimal digits.
proof fn lemma_dec_digits_len(n: nat, k: nat)
    requires
        k >= 1,
        n < pow10(k),
    ensures
        dec_digits(n).len() <= k,
    decreases n,
{
    if n >= 10 {
        assert(pow10(k) == 10 * pow10((k - 1) as nat));
        lemma_pow10_mono(1, (k - 1) as nat);
        lemma_dec_digits_len(n / 10, (k - 1) as nat);
        assert(dec_digits(n) =~= dec_digits(n / 10) + seq![((48 + n % 10) as u8) as char]);
    } else {
        lemma_dec_digits_shape(n);
        lemma_pow10_mono(1, k);
    }
}

/// A serialized u32 parses back to the number, whenever no digit follows it.
proof fn lemma_rt_u32(n: u32, rest: Seq<char>)
    requires
        rest.len() == 0 || !is_digit(rest[0]),
    ensures
        parse_u32(ser_u32(n) + rest) == Some((n, rest)),
{
    let d = dec_digits(n as nat);
    let s = d + rest;
    lemma_dec_digits_shape(n as nat);
    assert forall|j: int| 0 <= j < d.len() implies is_digit(#[trigger] s[j]) by {
        assert(s[j] == d[j]);
    }
    lemma_digit_run_exact(s, d.len() as int);
    assert(pow10(0) == 1);
    assert(pow10(1) == 10);
    assert(pow10(2) == 100);
    assert(pow10(3) == 1000);
    assert(pow10(4) == 10000);
    assert(pow10(5) == 100000);
    assert(pow10(6) == 1000000);
    assert(pow10(7) == 10000000);
    assert(pow10(8) == 100000000);
    assert(pow10(9) == 1000000000);
    assert(pow10(10) == 10000000000);
    lemma_dec_digits_len(n as nat, 10);
    assert(s.take(d.len() as int) =~= d);
    assert(s.skip(d.len() as int) =~= rest);
    if d.len() > 1 {
        assert(s[0] == d[0]);
        assert(d[0] != '0');
    }
}

/// A serialized bound pair parses back to itself.
proof fn lemma_rt_range(rg: Range, rest: Seq<char>)
    requires
        rg.valid(),
    ensures
        parse_range(ser_range(rg) + rest) == Some((rg, rest)),
{
    reveal_strlit("(min:");
    reveal_strlit(",max:");
    reveal_strlit(")");
    let s = ser_range(rg) + rest;
    let r4 = ")"@ + rest;
    let r3 = ser_u32(rg.max) + r4;
    let r2 = ",max:"@ + r3;
    let r1 = ser_u32(rg.min) + r2;
    assert(s =~= "(min:"@ + r1);
    lemma_rt_tag("(min:"@, r1);
    assert(r2[0] == ',');
    assert(!is_digit(r2[0]));
    lemma_rt_u32(rg.min, r2);
    lemma_rt_tag(",max:"@, r3);
    assert(r4[0] == ')');
    assert(!is_digit(r4[0]));
    lemma_rt_u32(rg.max, r4);
    lemma_rt_tag(")"@, rest);
    assert(Range { min: rg.min, max: rg.max } == rg);
}

/// A serialized drop entry parses back to itself.
proof fn lemma_rt_drop(d: DropView, rest: Seq<char>)
    requires
        d.amount.valid(),
    ensures
        parse_drop(ser_drop(d) + rest) == Some((d, rest)),
{
    let s = ser_drop(d) + rest;
    let r4 = ")"@ + rest;
    let r3 = ser_range(d.amount) + r4;
    let r2 = ",amount:"@ + r3;
    let r1 = ser_string(d.item) + r2;
    assert(s =~= "(item:"@ + r1);
    lemma_rt_tag("(item:"@, r1);
    assert(r1 =~= ser_string(d.item) + r2);
    lemma_rt_string(d.item, r2);
    lemma_rt_tag(",amount:"@, r3);
    lemma_rt_range(d.amount, r4);
    lemma_rt_tag(")"@, rest);
    assert(DropView { item: d.item, amount: d.amount } =~= d);
}

/// A serialized drop-list tail parses back to itself.
proof fn lemma_rt_drops_rest(ds: Seq<DropView>, rest: Seq<char>)
    requires
        drops_valid(ds),
    ensures
        parse_drops_rest(ser_drops_rest(ds) + seq![']'] + rest) == Some((ds, rest)),
    decreases ds.len(),
{
    let s = ser_drops_rest(ds) + seq![']'] + rest;
    if ds.len() == 0 {
        assert(s =~= seq![']'] + rest);
        assert(s[0] == ']');
        assert(s.drop_first() =~= rest);
        assert(ds =~= Seq::<DropView>::empty());
    } else {
        reveal_strlit(",");
        let tail = ser_drops_rest(ds.drop_first()) + seq![']'] + rest;
        let body = ser_drop(ds[0]) + tail;
        assert(s =~= ","@ + body);
        assert(s[0] == ',');
        assert(s[0] != ']');
        assert(s.drop_first() =~= body);
        assert(drops_valid(ds.drop_first())) by {
            assert(forall|i: int|
                0 <= i < ds.drop_first().len() ==> ds.drop_first()[i] == ds[i + 1]);
        }
        lemma_rt_drop(ds[0], tail);
        lemma_rt_drops_rest(ds.drop_first(), rest);
        assert(tail.len() < s.len());
        assert(seq![ds[0]] + ds.drop_first() =~= ds);
    }
}

/// A serialized drop list parses back to itself.
proof fn lemma_rt_drops(ds: Seq<DropView>, rest: Seq<char>)
    requires
        drops_valid(ds),
    ensures
        parse_drops(ser_drops(ds) + rest) == Some((ds, rest)),
{
    let s = ser_drops(ds) + rest;
    if ds.len() == 0 {
        reveal_strlit("[]");
        assert(s =~= seq!['[', ']'] + rest);
        assert(s[0] == '[');
        let s1 = s.drop_first();
        assert(s1 =~= seq![']'] + rest);
        assert(s1[0] == ']');
        assert(s1.drop_first() =~= rest);
        assert(ds =~= Seq::<DropView>::empty());
    } else {
        reveal_strlit("[");
        reveal_strlit("]");
        reveal_strlit("(item:");
        let tail = ser_drops_rest(ds.drop_first()) + seq![']'] + rest;
        let body = ser_drop(ds[0]) + tail;
        assert(ser_drops_rest(ds.drop_first()) + "]"@ + rest =~= tail);
        assert(s =~= "["@ + body);
        assert(s[0] == '[');
        let s1 = s.drop_first();
        assert(s1 =~= body);
        assert(s1[0] == '(');
        assert(s1[0] != ']');
        assert(drops_valid(ds.drop_first())) by {
            assert(forall|i: int|
                0 <= i < ds.drop_first().len() ==> ds.drop_first()[i] == ds[i + 1]);
        }
        lemma_rt_drop(ds[0], tail);
        lemma_rt_drops_rest(ds.drop_first(), rest);
        assert(seq![ds[0]] + ds.drop_first() =~= ds);
    }
}

/// A serialized status-variant body parses back to itself.
proof fn lemma_rt_status_body(model: Seq<char>, drops: Seq<DropView>, rest: Seq<char>)
    requires
        drops_valid(drops),
    ensures
        parse_status_body(ser_status_body(model, drops) + rest) == Some(((model, drops), rest)),
{
    let s = ser_status_body(model, drops) + rest;
    let r4 = ")"@ + rest;
    let r3 = ser_drops(drops) + r4;
    let r2 = ",drops:"@ + r3;
    let r1 = ser_string(model) + r2;
    assert(s =~= "model:"@ + r1);
    lemma_rt_tag("model:"@, r1);
    lemma_rt_string(model, r2);
    lemma_rt_tag(",drops:"@, r3);
    lemma_rt_drops(drops, r4);
    lemma_rt_tag(")"@, rest);
}

/// A serialized status parses back to itself.
proof fn lemma_rt_status(st: StatusView, rest: Seq<char>)
    requires
        crate::crops::status_wf(st),
    ensures
        parse_status(ser_status(st) + rest) == Some((st, rest)),
{
    let s = ser_status(st) + rest;
    match st {
        StatusView::Growing => {
            reveal_strlit("Growing");
            assert(s =~= "Growing"@ + rest);
            assert(s[0] == 'G');
            lemma_rt_tag("Growing"@, rest);
        },
        StatusView::Dead => {
            reveal_strlit("Dead");
            assert(s =~= "Dead"@ + rest);
            assert(s[0] == 'D');
            lemma_rt_tag("Dead"@, rest);
        },
        StatusView::Fruiting { model, drops } => {
            reveal_strlit("Fruiting(");
            let body = ser_status_body(model, drops) + rest;
            assert(s =~= "Fruiting("@ + body);
            assert(s[0] == 'F');
            lemma_rt_tag("Fruiting("@, body);
            lemma_rt_status_body(model, drops, rest);
        },
        StatusView::Seeding { model, drops } => {
            reveal_strlit("Seeding(");
            let body = ser_status_body(model, drops) + rest;
            assert(s =~= "Seeding("@ + body);
            assert(s[0] == 'S');
            lemma_rt_tag("Seeding("@, body);
            lemma_rt_status_body(model, drops, rest);
        },
    }
}

/// A serialized optional status parses back to itself.
proof fn lemma_rt_opt_status(st: Option<StatusView>, rest: Seq<char>)
    requires
        st matches Some(v) ==> crate::crops::status_wf(v),
    ensures
        parse_opt_status(ser_opt_status(st) + rest) == Some((st, rest)),
{
    let s = ser_opt_status(st) + rest;
    match st {
        None => {
            reveal_strlit("None");
            assert(s =~= "None"@ + rest);
            assert(s[0] == 'N');
            lemma_rt_tag("None"@, rest);
        },
        Some(v) => {
            reveal_strlit("Some(");
            reveal_strlit(")");
            let r2 = ")"@ + rest;
            let r1 = ser_status(v) + r2;
            assert(s =~= "Some("@ + r1);
            assert(s[0] == 'S');
            lemma_rt_tag("Some("@, r1);
            lemma_rt_status(v, r2);
            lemma_rt_tag(")"@, rest);
        },
    }
}

/// A serialized stage parses back to itself.
proof fn lemma_rt_stage(st: StageView, rest: Seq<char>)
    requires
        crate::crops::stage_wf(st),
    ensures
        parse_stage(ser_stage(st) + rest) == Some((st, rest)),
{
    let s = ser_stage(st) + rest;
    let r6 = ")"@ + rest;
    let r5 = ser_opt_status(st.begin_status) + r6;
    let r4 = ",begin_status:"@ + r5;
    let r3 = ser_range(st.duration) + r4;
    let r2 = ",duration:"@ + r3;
    let r1 = ser_string(st.model) + r2;
    assert(s =~= "(model:"@ + r1);
    lemma_rt_tag("(model:"@, r1);
    lemma_rt_string(st.model, r2);
    lemma_rt_tag(",duration:"@, r3);
    lemma_rt_range(st.duration, r4);
    lemma_rt_tag(",begin_status:"@, r5);
    lemma_rt_opt_status(st.begin_status, r6);
    lemma_rt_tag(")"@, rest);
    assert(StageView {
        model: st.model,
        duration: st.duration,
        begin_status: st.begin_status,
    } =~= st);
}

/// A serialized stage-list tail parses back to itself.
#[verifier::spinoff_prover]
#[verifier::rlimit(100)]
proof fn lemma_rt_stages_rest(sts: Seq<StageView>, rest: Seq<char>)
    requires
        stages_wf(sts),
    ensures
        parse_stages_rest(ser_stages_rest(sts) + seq![']'] + rest) == Some((sts, rest)),
    decreases sts.len(),
{
    let s = ser_stages_rest(sts) + seq![']'] + rest;
    if sts.len() == 0 {
        assert(s =~= seq![']'] + rest);
        assert(s[0] == ']');
        assert(s.drop_first() =~= rest);
        assert(sts =~= Seq::<StageView>::empty());
    } else {
        reveal_strlit(",");
        let tail = ser_stages_rest(sts.drop_first()) + seq![']'] + rest;
        let body = ser_stage(sts[0]) + tail;
        assert(s =~= ","@ + body);
        assert(s[0] == ',');
        assert(s[0] != ']');
        assert(s.drop_first() =~= body);
        assert(stages_wf(sts.drop_first())) by {
            assert(forall|i: int|
                0 <= i < sts.drop_first().len() ==> sts.drop_first()[i] == sts[i + 1]);
        }
        lemma_rt_stage(sts[0], tail);
        lemma_rt_stages_rest(sts.drop_first(), rest);
        assert(tail.len() < s.len());
        assert(seq![sts[0]] + sts.drop_first() =~= sts);
    }
}

/// A serialized stage list parses back to itself.
#[verifier::spinoff_prover]
#[verifier::rlimit(100)]
proof fn lemma_rt_stages(sts: Seq<StageView>, rest: Seq<char>)
    requires
        stages_wf(sts),
    ensures
        parse_stages(ser_stages(sts) + rest) == Some((sts, rest)),
{
    let s = ser_stages(sts) + rest;
    if sts.len() == 0 {
        reveal_strlit("[]");
        assert(s =~= seq!['[', ']'] + rest);
        assert(s[0] == '[');
        let s1 = s.drop_first();
        assert(s1 =~= seq![']'] + rest);
        assert(s1[0] == ']');
        assert(s1.drop_first() =~= rest);
        assert(sts =~= Seq::<StageView>::empty());
    } else {
        reveal_strlit("[");
        reveal_strlit("]");
        reveal_strlit("(model:");
        let tail = ser_stages_rest(sts.drop_first()) + seq![']'] + rest;
        let body = ser_stage(sts[0]) + tail;
        assert(ser_stages_rest(sts.drop_first()) + "]"@ + rest =~= tail);
        assert(s =~= "["@ + body);
        assert(s[0] == '[');
        let s1 = s.drop_first();
        assert(s1 =~= body);
        assert(s1[0] == '(');
        assert(s1[0] != ']');
        assert(stages_wf(sts.drop_first())) by {
            assert(forall|i: int|
                0 <= i < sts.drop_first().len() ==> sts.drop_first()[i] == sts[i + 1]);
        }
        lemma_rt_stage(sts[0], tail);
        lemma_rt_stages_rest(sts.drop_first(), rest);
        assert(seq![sts[0]] + sts.drop_first() =~= sts);
    }
}

/// A serialized definition parses back to itself, with any remainder.
proof fn lemma_rt_def(d: DefView, rest: Seq<char>)
    requires
        stages_wf(d.stages),
    ensures
        parse_def(ser_def(d) + rest) == Some((d, rest)),
{
    let s = ser_def(d) + rest;
    let r4 = ")"@ + rest;
    let r3 = ser_stages(d.stages) + r4;
    let r2 = ",stages:"@ + r3;
    let r1 = ser_string(d.id) + r2;
    assert(s =~= "(id:"@ + r1);
    lemma_rt_tag("(id:"@, r1);
    lemma_rt_string(d.id, r2);
    lemma_rt_tag(",stages:"@, r3);
    lemma_rt_stages(d.stages, r4);
    lemma_rt_tag(")"@, rest);
    assert(DefView { id: d.id, stages: d.stages } =~= d);
}

/// Round trip: serializing a well-formed crop definition and parsing the
/// text back yields a definition equal in all fields, variant payloads
/// included.
pub proof fn lemma_definition_round_trip(d: DefView)
    requires
        stages_wf(d.stages),
    ensures
        parse_definition_text(ser_def(d)) == Some(d),
{
    lemma_rt_def(d, Seq::<char>::empty());
    assert(ser_def(d) + Seq::<char>::empty() =~= ser_def(d));
}

} // verus!
