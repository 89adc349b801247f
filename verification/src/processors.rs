//! Script parser: turns the text of a subtitle script into [`Ssb`] data,
//! line by line.
//!
//! The script is a sequence of lines. A line is blank, a comment
//! (starting `//`), a section header (`#INFO`, `#TARGET`, `#MACROS`,
//! `#EVENTS`, `#RESOURCES`), or an entry of the current section. Info,
//! target and macro entries are `Key: value` pairs; an event entry is
//! `trigger|macro|note|data`; resource entries are accepted and ignored.
//! A trigger is either a time range `start-end` (times as
//! `[[hours:]minutes:]seconds[.milliseconds]`) or a free id.

use vstd::prelude::*;

use crate::chars::{find_char, split_on};
use crate::chars::{chars_to_string, split_chars, str_to_chars, sub_chars};
use crate::data::{assoc_set, Event, EventTrigger, Ssb, ViewKind};
use crate::state::Section;

verus! {

/// Why a script line was rejected.
#[derive(Debug, PartialEq, Eq, Structural, Clone, Copy)]
pub enum ParseErrorKind {
    /// A `#...` line that names no known section.
    UnknownSection,
    /// An entry line before any section header.
    NoSection,
    /// An entry line without the shape its section requires.
    InvalidLine,
}

/// A rejected script line: its one-based number and the reason.
#[derive(Debug, PartialEq, Eq, Structural, Clone, Copy)]
pub struct ParseError {
    pub line: usize,
    pub kind: ParseErrorKind,
}

/// A unit of a time value.
#[derive(Debug, PartialEq, Eq, Structural, Clone, Copy)]
pub enum Rule {
    TimeMs,
    TimeS,
    TimeM,
    TimeH,
}

/// Milliseconds per unit of a time component.
pub fn rule_to_ms(rule: Rule) -> (r: u32)
    ensures
        r == spec_rule_to_ms(rule),
{
    match rule {
        Rule::TimeMs => 1,
        Rule::TimeS => 1000,
        Rule::TimeM => 60 * 1000,
        Rule::TimeH => 60 * 60 * 1000,
    }
}

/// Milliseconds per unit of a time component.
pub open spec fn spec_rule_to_ms(rule: Rule) -> int {
    match rule {
        Rule::TimeMs => 1,
        Rule::TimeS => 1000,
        Rule::TimeM => 60000,
        Rule::TimeH => 3600000,
    }
}

/// A non-empty run of decimal digits.
pub open spec fn is_digits(s: Seq<char>) -> bool {
    s.len() > 0 && forall|i: int| 0 <= i < s.len() ==> '0' <= #[trigger] s[i] <= '9'
}

/// The number a run of decimal digits denotes.
pub open spec fn digits_val(s: Seq<char>) -> int
    decreases s.len(),
{
    if s.len() == 0 {
        0
    } else {
        10 * digits_val(s.drop_last()) + (s.last() as int - '0' as int)
    }
}

proof fn lemma_digits_val_nonneg(s: Seq<char>)
    requires
        forall|i: int| 0 <= i < s.len() ==> '0' <= #[trigger] s[i] <= '9',
    ensures
        digits_val(s) >= 0,
    decreases s.len(),
{
    if s.len() > 0 {
        lemma_digits_val_nonneg(s.drop_last());
    }
}

/// A longer digit prefix denotes at least as large a number.
proof fn lemma_digits_val_prefix(s: Seq<char>, i: int)
    requires
        forall|t: int| 0 <= t < s.len() ==> '0' <= #[trigger] s[t] <= '9',
        0 <= i <= s.len(),
    ensures
        digits_val(s.take(i)) <= digits_val(s),
    decreases s.len() - i,
{
    if i < s.len() {
        lemma_digits_val_prefix(s, i + 1);
        assert(s.take(i + 1).drop_last() =~= s.take(i));
        lemma_digits_val_nonneg(s.take(i));
        assert(digits_val(s.take(i + 1)) == 10 * digits_val(s.take(i)) + (s[i] as int
            - '0' as int));
    } else {
        assert(s.take(i) =~= s);
    }
}

/// Parse a run of decimal digits as a number of at most `max`.
/// `None` exactly when the characters are not a non-empty digit run or
/// the value is too large.
pub fn parse_dec(v: &Vec<char>, max: u64) -> (r: Option<u64>)
    requires
        max <= u64::MAX / 16,
    ensures
        r is Some <==> is_digits(v@) && digits_val(v@) <= max,
        r is Some ==> r->0 == digits_val(v@) && r->0 <= max,
{
    if v.len() == 0 {
        return None;
    }
    let mut acc: u64 = 0;
    let mut i: usize = 0;
    while i < v.len()
        invariant
            0 <= i <= v@.len(),
            v@.len() > 0,
            forall|t: int| 0 <= t < i ==> '0' <= #[trigger] v@[t] <= '9',
            acc == digits_val(v@.take(i as int)),
            acc <= max,
            max <= u64::MAX / 16,
        decreases v@.len() - i,
    {
        let c = v[i];
        if !('0' <= c && c <= '9') {
            return None;
        }
        let d = c as u32 as u64 - 48;
        assert(d <= 9);
        let next = acc * 10 + d;
        proof {
            assert(v@.take(i as int + 1).drop_last() =~= v@.take(i as int));
        }
        if next > max {
            proof {
                if is_digits(v@) {
                    lemma_digits_val_prefix(v@, i as int + 1);
                }
            }
            return None;
        }
        acc = next;
        i = i + 1;
    }
    proof {
        assert(v@.take(v@.len() as int) =~= v@);
    }
    Some(acc)
}

/// Parse a time component list `[[hours:]minutes:]seconds` with an
/// optional `.milliseconds` suffix into milliseconds.
pub open spec fn spec_parse_time(s: Seq<char>) -> Option<int> {
    let dparts = split_on(s, '.');
    if dparts.len() > 2 {
        None
    } else {
        let tparts = split_on(dparts[0], ':');
        if tparts.len() > 3 {
            None
        } else if !(forall|i: int| 0 <= i < tparts.len() ==> is_digits(#[trigger] tparts[i]))
            || (dparts.len() == 2 && !is_digits(dparts[1])) {
            None
        } else {
            let ms = if dparts.len() == 2 {
                digits_val(dparts[1])
            } else {
                0
            };
            let sec = digits_val(tparts.last());
            let min = if tparts.len() >= 2 {
                digits_val(tparts[tparts.len() - 2])
            } else {
                0
            };
            let hr = if tparts.len() == 3 {
                digits_val(tparts[0])
            } else {
                0
            };
            let total = hr * 3600000 + min * 60000 + sec * 1000 + ms;
            if total > u32::MAX {
                None
            } else {
                Some(total)
            }
        }
    }
}

/// Parse a time of the form `[[hours:]minutes:]seconds[.milliseconds]`
/// into milliseconds.
pub fn parse_time(v: &Vec<char>) -> (r: Option<u32>)
    ensures
        match r {
            Some(t) => spec_parse_time(v@) == Some(t as int),
            None => spec_parse_time(v@) is None,
        },
{
    let dparts = split_chars(v, '.');
    let ghost dpv = dparts@.map_values(|x: Vec<char>| x@);
    if dparts.len() > 2 {
        return None;
    }
    let tparts = split_chars(&dparts[0], ':');
    let ghost tpv = tparts@.map_values(|x: Vec<char>| x@);
    if tparts.len() > 3 {
        return None;
    }
    let ms_opt: Option<u64> = if dparts.len() == 2 {
        parse_dec(&dparts[1], 0xffff_ffff)
    } else {
        Some(0)
    };
    let sec_opt = parse_dec(&tparts[tparts.len() - 1], 0xffff_ffff);
    let min_opt: Option<u64> = if tparts.len() >= 2 {
        parse_dec(&tparts[tparts.len() - 2], 0xffff_ffff)
    } else {
        Some(0)
    };
    let hr_opt: Option<u64> = if tparts.len() == 3 {
        parse_dec(&tparts[0], 0xffff_ffff)
    } else {
        Some(0)
    };
    proof {
        assert(tpv.last() == tpv[tpv.len() - 1]);
        if (forall|i: int| 0 <= i < tpv.len() ==> is_digits(#[trigger] tpv[i])) && (dpv.len()
            != 2 || is_digits(dpv[1])) {
            lemma_digits_val_nonneg(tpv[tpv.len() - 1]);
            if tpv.len() >= 2 {
                lemma_digits_val_nonneg(tpv[tpv.len() - 2]);
            }
            if tpv.len() == 3 {
                lemma_digits_val_nonneg(tpv[0]);
            }
            if dpv.len() == 2 {
                lemma_digits_val_nonneg(dpv[1]);
            }
        }
    }
    match (ms_opt, sec_opt, min_opt, hr_opt) {
        (Some(ms), Some(sec), Some(min), Some(hr)) => {
            let total = hr * 3600000 + min * 60000 + sec * 1000 + ms;
            if total > 0xffff_ffff {
                return None;
            }
            Some(total as u32)
        },
        _ => {
            None
        },
    }
}

/// Ghost mirror of an event trigger.
pub ghost enum TriggerModel {
    Id(Seq<char>),
    Time(int, int),
}

/// Ghost mirror of an event.
#[verifier::ext_equal]
pub ghost struct EventModel {
    pub trigger: TriggerModel,
    pub macro_: Option<Seq<char>>,
    pub note: Option<Seq<char>>,
    pub data: Seq<char>,
    pub data_location: (int, int),
}

/// Ghost mirror of the script data the parser fills.
#[verifier::ext_equal]
pub ghost struct SsbModel {
    pub info_title: Option<Seq<char>>,
    pub info_author: Option<Seq<char>>,
    pub info_description: Option<Seq<char>>,
    pub info_version: Option<Seq<char>>,
    pub info_custom: Seq<(Seq<char>, Seq<char>)>,
    pub target_width: Option<int>,
    pub target_height: Option<int>,
    pub target_depth: int,
    pub target_view: ViewKind,
    pub macros: Seq<(Seq<char>, Seq<char>)>,
    pub events: Seq<EventModel>,
    pub fonts: Seq<(crate::data::FontFace, crate::data::FontData)>,
    pub textures: Seq<(crate::data::TextureId, crate::data::TextureData)>,
}

/// The view of an optional string.
pub open spec fn opt_view(o: Option<String>) -> Option<Seq<char>> {
    match o {
        Some(s) => Some(s@),
        None => None,
    }
}

/// The view of an optional machine integer.
pub open spec fn opt_int(o: Option<u16>) -> Option<int> {
    match o {
        Some(v) => Some(v as int),
        None => None,
    }
}

/// The model of a trigger.
pub open spec fn trigger_model(t: EventTrigger) -> TriggerModel {
    match t {
        EventTrigger::Id(s) => TriggerModel::Id(s@),
        EventTrigger::Time(range) => TriggerModel::Time(range.0 as int, range.1 as int),
    }
}

/// The model of an event.
pub open spec fn event_model(e: Event) -> EventModel {
    EventModel {
        trigger: trigger_model(e.trigger),
        macro_: opt_view(e.macro_),
        note: opt_view(e.note),
        data: e.data@,
        data_location: (e.data_location.0 as int, e.data_location.1 as int),
    }
}

/// The model of script data.
pub open spec fn ssb_model(s: Ssb) -> SsbModel {
    SsbModel {
        info_title: opt_view(s.info_title),
        info_author: opt_view(s.info_author),
        info_description: opt_view(s.info_description),
        info_version: opt_view(s.info_version),
        info_custom: s.info_custom@,
        target_width: opt_int(s.target_width),
        target_height: opt_int(s.target_height),
        target_depth: s.target_depth as int,
        target_view: s.target_view,
        macros: s.macros@,
        events: s.events@.map_values(|e: Event| event_model(e)),
        fonts: s.fonts@,
        textures: s.textures@,
    }
}

/// The model of freshly defaulted script data.
pub open spec fn default_ssb_model() -> SsbModel {
    SsbModel {
        info_title: None,
        info_author: None,
        info_description: None,
        info_version: None,
        info_custom: Seq::empty(),
        target_width: None,
        target_height: None,
        target_depth: 1000,
        target_view: ViewKind::Perspective,
        macros: Seq::empty(),
        events: Seq::empty(),
        fonts: Seq::empty(),
        textures: Seq::empty(),
    }
}

/// A line with one trailing carriage return removed.
pub open spec fn line_content(l: Seq<char>) -> Seq<char> {
    if l.len() > 0 && l.last() == '\r' {
        l.drop_last()
    } else {
        l
    }
}

/// The `Key: value` split of an entry line: the key before the first
/// colon, the value after the colon and one following space.
pub open spec fn key_value(l: Seq<char>) -> Option<(Seq<char>, Seq<char>)> {
    let i = find_char(l, ':');
    if 0 <= i && i + 1 < l.len() && l[i + 1] == ' ' {
        Some((l.take(i), l.skip(i + 2)))
    } else {
        None
    }
}

/// The trigger an event's first field denotes: a time range when it
/// splits at its first dash into two well-formed times, else an id.
pub open spec fn spec_parse_trigger(s: Seq<char>) -> TriggerModel {
    let i = find_char(s, '-');
    if 0 <= i < s.len() {
        let a = spec_parse_time(s.take(i));
        let b = spec_parse_time(s.skip(i + 1));
        if a is Some && b is Some {
            TriggerModel::Time(a->0, b->0)
        } else {
            TriggerModel::Id(s)
        }
    } else {
        TriggerModel::Id(s)
    }
}

/// Apply an info entry: known keys set their header field, others go to
/// the custom map.
pub open spec fn apply_info(m: SsbModel, l: Seq<char>) -> Result<SsbModel, ParseErrorKind> {
    match key_value(l) {
        None => Err(ParseErrorKind::InvalidLine),
        Some((k, v)) => Ok(
            if k == "Title"@ {
                SsbModel { info_title: Some(v), ..m }
            } else if k == "Author"@ {
                SsbModel { info_author: Some(v), ..m }
            } else if k == "Description"@ {
                SsbModel { info_description: Some(v), ..m }
            } else if k == "Version"@ {
                SsbModel { info_version: Some(v), ..m }
            } else {
                SsbModel { info_custom: assoc_set(m.info_custom, k, v), ..m }
            },
        ),
    }
}

/// Apply a target entry: known keys with well-formed values set their
/// field; a malformed value or an unknown key changes nothing.
pub open spec fn apply_target(m: SsbModel, l: Seq<char>) -> Result<SsbModel, ParseErrorKind> {
    match key_value(l) {
        None => Err(ParseErrorKind::InvalidLine),
        Some((k, v)) => Ok(
            if k == "Width"@ {
                if is_digits(v) && digits_val(v) <= u16::MAX {
                    SsbModel { target_width: Some(digits_val(v)), ..m }
                } else {
                    m
                }
            } else if k == "Height"@ {
                if is_digits(v) && digits_val(v) <= u16::MAX {
                    SsbModel { target_height: Some(digits_val(v)), ..m }
                } else {
                    m
                }
            } else if k == "Depth"@ {
                if is_digits(v) && digits_val(v) <= u16::MAX {
                    SsbModel { target_depth: digits_val(v), ..m }
                } else {
                    m
                }
            } else if k == "View"@ {
                match ViewKind::spec_from(v) {
                    Ok(view) => SsbModel { target_view: view, ..m },
                    Err(_) => m,
                }
            } else {
                m
            },
        ),
    }
}

/// Apply a macros entry: bind the macro name to its content.
pub open spec fn apply_macros(m: SsbModel, l: Seq<char>) -> Result<SsbModel, ParseErrorKind> {
    match key_value(l) {
        None => Err(ParseErrorKind::InvalidLine),
        Some((k, v)) => Ok(SsbModel { macros: assoc_set(m.macros, k, v), ..m }),
    }
}

/// Apply an events entry `trigger|macro|note|data`: the data field is
/// the rest of the line after the third bar, and its location is the
/// one-based line number and the data's column.
pub open spec fn apply_event(m: SsbModel, l: Seq<char>, line_no: int) -> Result<
    SsbModel,
    ParseErrorKind,
> {
    let i1 = find_char(l, '|');
    if !(0 <= i1 < l.len()) {
        Err(ParseErrorKind::InvalidLine)
    } else {
        let rest1 = l.skip(i1 + 1);
        let i2 = find_char(rest1, '|');
        if !(0 <= i2 < rest1.len()) {
            Err(ParseErrorKind::InvalidLine)
        } else {
            let rest2 = rest1.skip(i2 + 1);
            let i3 = find_char(rest2, '|');
            if !(0 <= i3 < rest2.len()) {
                Err(ParseErrorKind::InvalidLine)
            } else {
                let ev = EventModel {
                    trigger: spec_parse_trigger(l.take(i1)),
                    macro_: Some(rest1.take(i2)),
                    note: Some(rest2.take(i3)),
                    data: rest2.skip(i3 + 1),
                    data_location: (line_no, i1 + 1 + i2 + 1 + i3 + 1),
                };
                Ok(SsbModel { events: m.events.push(ev), ..m })
            }
        }
    }
}

/// Apply one raw script line to the parse state: blank and comment
/// lines are skipped, a `#` line selects a section, an entry line is
/// applied under the current section; resource entries are accepted and
/// ignored.
pub open spec fn apply_line(
    sec: Option<Section>,
    m: SsbModel,
    raw: Seq<char>,
    line_no: int,
) -> Result<(Option<Section>, SsbModel), ParseErrorKind> {
    let l = line_content(raw);
    if l.len() == 0 {
        Ok((sec, m))
    } else if l.len() >= 2 && l[0] == '/' && l[1] == '/' {
        Ok((sec, m))
    } else if l[0] == '#' {
        match Section::spec_from(l) {
            Ok(s) => Ok((Some(s), m)),
            Err(_) => Err(ParseErrorKind::UnknownSection),
        }
    } else {
        match sec {
            None => Err(ParseErrorKind::NoSection),
            Some(Section::Info) => match apply_info(m, l) {
                Ok(m2) => Ok((sec, m2)),
                Err(k) => Err(k),
            },
            Some(Section::Target) => match apply_target(m, l) {
                Ok(m2) => Ok((sec, m2)),
                Err(k) => Err(k),
            },
            Some(Section::Macros) => match apply_macros(m, l) {
                Ok(m2) => Ok((sec, m2)),
                Err(k) => Err(k),
            },
            Some(Section::Events) => match apply_event(m, l, line_no) {
                Ok(m2) => Ok((sec, m2)),
                Err(k) => Err(k),
            },
            Some(Section::Resources) => Ok((sec, m)),
        }
    }
}

/// Fold the lines from index `i` on over the parse state. An error
/// carries the one-based line number and the reason.
pub open spec fn parse_from(
    sec: Option<Section>,
    m: SsbModel,
    lines: Seq<Seq<char>>,
    i: int,
) -> Result<SsbModel, (int, ParseErrorKind)>
    decreases lines.len() - i,
{
    if i < 0 || i >= lines.len() {
        Ok(m)
    } else {
        match apply_line(sec, m, lines[i], i + 1) {
            Ok((s2, m2)) => parse_from(s2, m2, lines, i + 1),
            Err(k) => Err((i + 1, k)),
        }
    }
}

/// Parse a whole script on top of existing data.
pub open spec fn spec_parse(m: SsbModel, script: Seq<char>) -> Result<
    SsbModel,
    (int, ParseErrorKind),
> {
    parse_from(None, m, split_on(script, '\n'), 0)
}

/// Whether the fold accepts or rejects, and with which error, depends
/// only on the lines and the section walk, never on the data folded.
proof fn lemma_parse_err_independent(
    sec: Option<Section>,
    m1: SsbModel,
    m2: SsbModel,
    lines: Seq<Seq<char>>,
    i: int,
)
    ensures
        parse_from(sec, m1, lines, i) is Ok <==> parse_from(sec, m2, lines, i) is Ok,
        parse_from(sec, m1, lines, i) is Err ==> parse_from(sec, m1, lines, i)->Err_0
            == parse_from(sec, m2, lines, i)->Err_0,
    decreases lines.len() - i,
{
    if 0 <= i && i < lines.len() {
        let r1 = apply_line(sec, m1, lines[i], i + 1);
        let r2 = apply_line(sec, m2, lines[i], i + 1);
        assert(r1 is Ok <==> r2 is Ok);
        if r1 is Ok {
            assert(r1->Ok_0.0 == r2->Ok_0.0);
            lemma_parse_err_independent(r1->Ok_0.0, r1->Ok_0.1, r2->Ok_0.1, lines, i + 1);
        } else {
            assert(r1->Err_0 == r2->Err_0);
        }
    }
}

/// A line with one trailing carriage return removed.
fn strip_cr(v: &Vec<char>) -> (r: Vec<char>)
    ensures
        r@ == line_content(v@),
{
    if v.len() > 0 && v[v.len() - 1] == '\r' {
        let r = sub_chars(v, 0, v.len() - 1);
        proof {
            assert(r@ =~= v@.drop_last());
        }
        r
    } else {
        sub_chars(v, 0, v.len())
    }
}

/// Whether a character vector holds exactly the given literal.
fn chars_is(v: &Vec<char>, lit: &str) -> (r: bool)
    ensures
        r == (v@ == lit@),
{
    let p = str_to_chars(lit);
    crate::chars::chars_eq(v, &p)
}

/// The `Key: value` split of an entry line.
fn key_value_exec(l: &Vec<char>) -> (r: Option<(Vec<char>, Vec<char>)>)
    ensures
        match r {
            Some(kv) => key_value(l@) == Some((kv.0@, kv.1@)),
            None => key_value(l@) is None,
        },
{
    let i = crate::chars::find_char_exec(l, 0, ':');
    proof {
        assert(l@.skip(0) =~= l@);
    }
    if i < l.len() && i + 1 < l.len() && l[i + 1] == ' ' {
        let k = sub_chars(l, 0, i);
        let v = sub_chars(l, i + 2, l.len());
        proof {
            assert(k@ =~= l@.take(i as int));
            assert(v@ =~= l@.skip(i as int + 2));
        }
        Some((k, v))
    } else {
        None
    }
}

/// The trigger an event's first field denotes.
fn parse_trigger_exec(v: &Vec<char>) -> (r: EventTrigger)
    ensures
        trigger_model(r) == spec_parse_trigger(v@),
{
    let i = crate::chars::find_char_exec(v, 0, '-');
    proof {
        assert(v@.skip(0) =~= v@);
    }
    if i < v.len() {
        let left = sub_chars(v, 0, i);
        let right = sub_chars(v, i + 1, v.len());
        proof {
            assert(left@ =~= v@.take(i as int));
            assert(right@ =~= v@.skip(i as int + 1));
        }
        let a = parse_time(&left);
        let b = parse_time(&right);
        match (a, b) {
            (Some(start), Some(end)) => EventTrigger::Time((start, end)),
            _ => EventTrigger::Id(chars_to_string(v)),
        }
    } else {
        EventTrigger::Id(chars_to_string(v))
    }
}

/// Walk the script's lines and report the first rejected one, touching
/// no data: whether a line is accepted depends only on the section walk
/// and the line itself, so validation can run ahead of application.
#[verifier::rlimit(100)]
fn scan_script(lines: &Vec<Vec<char>>) -> (r: Option<ParseError>)
    ensures
        match r {
            None => parse_from(
                None,
                default_ssb_model(),
                lines@.map_values(|x: Vec<char>| x@),
                0,
            ) is Ok,
            Some(e) => parse_from(
                None,
                default_ssb_model(),
                lines@.map_values(|x: Vec<char>| x@),
                0,
            ) == Err::<SsbModel, (int, ParseErrorKind)>((e.line as int, e.kind)),
        },
{
    let ghost lv = lines@.map_values(|x: Vec<char>| x@);
    let mut section: Option<Section> = None;
    let mut folded: Ghost<SsbModel> = Ghost(default_ssb_model());
    let mut i: usize = 0;
    while i < lines.len()
        invariant
            lines@.map_values(|x: Vec<char>| x@) == lv,
            0 <= i <= lines@.len(),
            parse_from(None, default_ssb_model(), lv, 0) == parse_from(
                section,
                folded@,
                lv,
                i as int,
            ),
        decreases lines@.len() - i,
    {
        let ghost pre_sec = section;
        let ghost pre_m = folded@;
        let l = strip_cr(&lines[i]);
        proof {
            assert(l@ == line_content(lv[i as int]));
        }
        if l.len() == 0 {
        } else if l.len() >= 2 && {
            let c0 = l[0];
            let c1 = l[1];
            c0 == '/' && c1 == '/'
        } {
        } else if l[0] == '#' {
            let ls = chars_to_string(&l);
            match Section::try_from(ls.as_str()) {
                Ok(s) => {
                    section = Some(s);
                },
                Err(_) => {
                    return Some(ParseError { line: i + 1, kind: ParseErrorKind::UnknownSection });
                },
            }
        } else {
            match section {
                None => {
                    return Some(ParseError { line: i + 1, kind: ParseErrorKind::NoSection });
                },
                Some(Section::Info) => {
                    match key_value_exec(&l) {
                        None => {
                            return Some(
                                ParseError { line: i + 1, kind: ParseErrorKind::InvalidLine },
                            );
                        },
                        Some(_) => {
                            folded = Ghost(apply_info(pre_m, l@)->Ok_0);
                        },
                    }
                },
                Some(Section::Target) => {
                    match key_value_exec(&l) {
                        None => {
                            return Some(
                                ParseError { line: i + 1, kind: ParseErrorKind::InvalidLine },
                            );
                        },
                        Some(_) => {
                            folded = Ghost(apply_target(pre_m, l@)->Ok_0);
                        },
                    }
                },
                Some(Section::Macros) => {
                    match key_value_exec(&l) {
                        None => {
                            return Some(
                                ParseError { line: i + 1, kind: ParseErrorKind::InvalidLine },
                            );
                        },
                        Some(_) => {
                            folded = Ghost(apply_macros(pre_m, l@)->Ok_0);
                        },
                    }
                },
                Some(Section::Events) => {
                    let i1 = crate::chars::find_char_exec(&l, 0, '|');
                    proof {
                        assert(l@.skip(0) =~= l@);
                    }
                    if i1 == l.len() {
                        proof {
                            assert(apply_event(pre_m, l@, i as int + 1) == Err::<
                                SsbModel,
                                ParseErrorKind,
                            >(ParseErrorKind::InvalidLine));
                        }
                        return Some(ParseError { line: i + 1, kind: ParseErrorKind::InvalidLine });
                    }
                    let i2 = crate::chars::find_char_exec(&l, i1 + 1, '|');
                    proof {
                        assert(l@.skip(i1 as int + 1).len() == l@.len() - i1 - 1);
                    }
                    if i2 == l.len() {
                        proof {
                            assert(find_char(l@.skip(i1 as int + 1), '|') == i2 - i1 - 1);
                            assert(apply_event(pre_m, l@, i as int + 1) == Err::<
                                SsbModel,
                                ParseErrorKind,
                            >(ParseErrorKind::InvalidLine));
                        }
                        return Some(ParseError { line: i + 1, kind: ParseErrorKind::InvalidLine });
                    }
                    let i3 = crate::chars::find_char_exec(&l, i2 + 1, '|');
                    proof {
                        assert(l@.skip(i1 as int + 1).skip(i2 as int - i1 - 1 + 1) =~= l@.skip(
                            i2 as int + 1,
                        ));
                    }
                    if i3 == l.len() {
                        proof {
                            assert(find_char(l@.skip(i2 as int + 1), '|') == i3 - i2 - 1);
                            assert(apply_event(pre_m, l@, i as int + 1) == Err::<
                                SsbModel,
                                ParseErrorKind,
                            >(ParseErrorKind::InvalidLine));
                        }
                        return Some(ParseError { line: i + 1, kind: ParseErrorKind::InvalidLine });
                    }
                    proof {
                        assert(find_char(l@.skip(i1 as int + 1), '|') == i2 - i1 - 1);
                        assert(find_char(l@.skip(i2 as int + 1), '|') == i3 - i2 - 1);
                        assert(apply_event(pre_m, l@, i as int + 1) is Ok);
                    }
                    folded = Ghost(apply_event(pre_m, l@, i as int + 1)->Ok_0);
                },
                Some(Section::Resources) => {},
            }
        }
        proof {
            assert(apply_line(pre_sec, pre_m, lv[i as int], i as int + 1) == Ok::<
                (Option<Section>, SsbModel),
                ParseErrorKind,
            >((section, folded@)));
        }
        i = i + 1;
    }
    proof {
        assert(parse_from(section, folded@, lv, i as int) == Ok::<
            SsbModel,
            (int, ParseErrorKind),
        >(folded@));
    }
    None
}

/// Stream parser for script data.
#[derive(Debug)]
pub struct SsbParser {
    data: Ssb,
}

/// Line-walking state of one parse: the section the walk is in.
#[derive(Debug, PartialEq, Eq, Structural, Clone, Copy)]
pub struct Parser {
    pub section: Option<Section>,
}

impl Default for SsbParser {
    /// A parser holding defaulted script data.
    fn default() -> (r: Self)
        ensures
            r.model() == default_ssb_model(),
    {
        let r = SsbParser { data: Ssb::default() };
        proof {
            assert(r.model() =~= default_ssb_model());
        }
        r
    }
}

impl SsbParser {
    /// The model of the held script data.
    pub closed spec fn model(&self) -> SsbModel {
        ssb_model(self.data)
    }

    /// Parse a script into a fresh parser. The result is `Ok` exactly
    /// when every line of the script is accepted.
    pub fn new(script: &str) -> (r: Result<SsbParser, ParseError>)
        ensures
            match r {
                Ok(p) => spec_parse(default_ssb_model(), script@) == Ok::<
                    SsbModel,
                    (int, ParseErrorKind),
                >(p.model()),
                Err(e) => spec_parse(default_ssb_model(), script@) == Err::<
                    SsbModel,
                    (int, ParseErrorKind),
                >((e.line as int, e.kind)),
            },
    {
        let mut instance = SsbParser::default();
        match instance.parse(script) {
            Ok(()) => Ok(instance),
            Err(e) => Err(e),
        }
    }

    /// Parse a script on top of the held data, line by line. The whole
    /// script is validated first: on an error nothing is applied and
    /// the held data is unchanged.
    #[verifier::rlimit(100)]
    pub fn parse(&mut self, script: &str) -> (r: Result<(), ParseError>)
        ensures
            match r {
                Ok(()) => spec_parse(old(self).model(), script@) == Ok::<
                    SsbModel,
                    (int, ParseErrorKind),
                >(final(self).model()),
                Err(e) => spec_parse(old(self).model(), script@) == Err::<
                    SsbModel,
                    (int, ParseErrorKind),
                >((e.line as int, e.kind)) && final(self).model() == old(self).model(),
            },
    {
        let chars = str_to_chars(script);
        let lines = split_chars(&chars, '\n');
        let ghost lv = lines@.map_values(|x: Vec<char>| x@);
        match scan_script(&lines) {
            Some(e) => {
                proof {
                    lemma_parse_err_independent(
                        None,
                        old(self).model(),
                        default_ssb_model(),
                        lv,
                        0,
                    );
                }
                return Err(e);
            },
            None => {
                proof {
                    lemma_parse_err_independent(
                        None,
                        old(self).model(),
                        default_ssb_model(),
                        lv,
                        0,
                    );
                }
            },
        }
        let mut state = Parser { section: None };
        let mut i: usize = 0;
        while i < lines.len()
            invariant
                lv == split_on(script@, '\n'),
                lines@.map_values(|x: Vec<char>| x@) == lv,
                0 <= i <= lines@.len(),
                spec_parse(old(self).model(), script@) == parse_from(
                    state.section,
                    self.model(),
                    lv,
                    i as int,
                ),
                parse_from(state.section, self.model(), lv, i as int) is Ok,
            decreases lines@.len() - i,
        {
            let ghost pre_sec = state.section;
            let ghost pre_m = self.model();
            let l = strip_cr(&lines[i]);
            proof {
                assert(l@ == line_content(lv[i as int]));
            }
            if l.len() == 0 {
            } else if l.len() >= 2 && {
                let c0 = l[0];
                let c1 = l[1];
                c0 == '/' && c1 == '/'
            } {
            } else if l[0] == '#' {
                let ls = chars_to_string(&l);
                match Section::try_from(ls.as_str()) {
                    Ok(s) => {
                        state.section = Some(s);
                    },
                    Err(_) => {
                        proof {
                            assert(apply_line(pre_sec, pre_m, lv[i as int], i as int + 1) is Err);
                            assert(false);
                        }
                        return Err(ParseError { line: i + 1, kind: ParseErrorKind::UnknownSection });
                    },
                }
            } else {
                match state.section {
                    None => {
                        proof {
                            assert(apply_line(pre_sec, pre_m, lv[i as int], i as int + 1) is Err);
                            assert(false);
                        }
                        return Err(ParseError { line: i + 1, kind: ParseErrorKind::NoSection });
                    },
                    Some(Section::Info) => {
                        match key_value_exec(&l) {
                            None => {
                                proof {
                                    assert(apply_line(
                                        pre_sec,
                                        pre_m,
                                        lv[i as int],
                                        i as int + 1,
                                    ) is Err);
                                    assert(false);
                                }
                                return Err(
                                    ParseError { line: i + 1, kind: ParseErrorKind::InvalidLine },
                                );
                            },
                            Some((k, v)) => {
                                if chars_is(&k, "Title") {
                                    self.data.info_title = Some(chars_to_string(&v));
                                } else if chars_is(&k, "Author") {
                                    self.data.info_author = Some(chars_to_string(&v));
                                } else if chars_is(&k, "Description") {
                                    self.data.info_description = Some(chars_to_string(&v));
                                } else if chars_is(&k, "Version") {
                                    self.data.info_version = Some(chars_to_string(&v));
                                } else {
                                    self.data.info_custom.insert(
                                        chars_to_string(&k),
                                        chars_to_string(&v),
                                    );
                                }
                                proof {
                                    assert(apply_info(pre_m, l@) == Ok::<
                                        SsbModel,
                                        ParseErrorKind,
                                    >(self.model())) by {
                                        assert(self.model() =~= apply_info(pre_m, l@)->Ok_0);
                                    }
                                }
                            },
                        }
                    },
                    Some(Section::Target) => {
                        match key_value_exec(&l) {
                            None => {
                                proof {
                                    assert(apply_line(
                                        pre_sec,
                                        pre_m,
                                        lv[i as int],
                                        i as int + 1,
                                    ) is Err);
                                    assert(false);
                                }
                                return Err(
                                    ParseError { line: i + 1, kind: ParseErrorKind::InvalidLine },
                                );
                            },
                            Some((k, v)) => {
                                if chars_is(&k, "Width") {
                                    match parse_dec(&v, 65535) {
                                        Some(w) => {
                                            self.data.target_width = Some(w as u16);
                                        },
                                        None => {},
                                    }
                                } else if chars_is(&k, "Height") {
                                    match parse_dec(&v, 65535) {
                                        Some(h) => {
                                            self.data.target_height = Some(h as u16);
                                        },
                                        None => {},
                                    }
                                } else if chars_is(&k, "Depth") {
                                    match parse_dec(&v, 65535) {
                                        Some(d) => {
                                            self.data.target_depth = d as u16;
                                        },
                                        None => {},
                                    }
                                } else if chars_is(&k, "View") {
                                    let vs = chars_to_string(&v);
                                    match ViewKind::try_from(vs.as_str()) {
                                        Ok(view) => {
                                            self.data.target_view = view;
                                        },
                                        Err(_) => {},
                                    }
                                }
                                proof {
                                    assert(apply_target(pre_m, l@) == Ok::<
                                        SsbModel,
                                        ParseErrorKind,
                                    >(self.model())) by {
                                        assert(self.model() =~= apply_target(pre_m, l@)->Ok_0);
                                    }
                                }
                            },
                        }
                    },
                    Some(Section::Macros) => {
                        match key_value_exec(&l) {
                            None => {
                                proof {
                                    assert(apply_line(
                                        pre_sec,
                                        pre_m,
                                        lv[i as int],
                                        i as int + 1,
                                    ) is Err);
                                    assert(false);
                                }
                                return Err(
                                    ParseError { line: i + 1, kind: ParseErrorKind::InvalidLine },
                                );
                            },
                            Some((k, v)) => {
                                self.data.macros.insert(chars_to_string(&k), chars_to_string(&v));
                                proof {
                                    assert(apply_macros(pre_m, l@) == Ok::<
                                        SsbModel,
                                        ParseErrorKind,
                                    >(self.model())) by {
                                        assert(self.model() =~= apply_macros(pre_m, l@)->Ok_0);
                                    }
                                }
                            },
                        }
                    },
                    Some(Section::Events) => {
                        let i1 = crate::chars::find_char_exec(&l, 0, '|');
                        proof {
                            assert(l@.skip(0) =~= l@);
                        }
                        if i1 == l.len() {
                            proof {
                                assert(apply_event(pre_m, l@, i as int + 1) == Err::<
                                    SsbModel,
                                    ParseErrorKind,
                                >(ParseErrorKind::InvalidLine));
                                assert(apply_line(pre_sec, pre_m, lv[i as int], i as int + 1)
                                    is Err);
                                assert(false);
                            }
                            return Err(
                                ParseError { line: i + 1, kind: ParseErrorKind::InvalidLine },
                            );
                        }
                        let i2 = crate::chars::find_char_exec(&l, i1 + 1, '|');
                        proof {
                            assert(l@.skip(i1 as int + 1).len() == l@.len() - i1 - 1);
                        }
                        if i2 == l.len() {
                            proof {
                                assert(find_char(l@.skip(i1 as int + 1), '|') == i2 - i1 - 1);
                                assert(apply_event(pre_m, l@, i as int + 1) == Err::<
                                    SsbModel,
                                    ParseErrorKind,
                                >(ParseErrorKind::InvalidLine));
                                assert(apply_line(pre_sec, pre_m, lv[i as int], i as int + 1)
                                    is Err);
                                assert(false);
                            }
                            return Err(
                                ParseError { line: i + 1, kind: ParseErrorKind::InvalidLine },
                            );
                        }
                        let i3 = crate::chars::find_char_exec(&l, i2 + 1, '|');
                        proof {
                            assert(l@.skip(i1 as int + 1).skip(i2 as int - i1 - 1 + 1) =~= l@.skip(
                                i2 as int + 1,
                            ));
                        }
                        if i3 == l.len() {
                            proof {
                                assert(find_char(l@.skip(i2 as int + 1), '|') == i3 - i2 - 1);
                                assert(apply_event(pre_m, l@, i as int + 1) == Err::<
                                    SsbModel,
                                    ParseErrorKind,
                                >(ParseErrorKind::InvalidLine));
                                assert(apply_line(pre_sec, pre_m, lv[i as int], i as int + 1)
                                    is Err);
                                assert(false);
                            }
                            return Err(
                                ParseError { line: i + 1, kind: ParseErrorKind::InvalidLine },
                            );
                        }
                        let tfield = sub_chars(&l, 0, i1);
                        let mac = sub_chars(&l, i1 + 1, i2);
                        let note = sub_chars(&l, i2 + 1, i3);
                        let dat = sub_chars(&l, i3 + 1, l.len());
                        let trigger = parse_trigger_exec(&tfield);
                        let ghost pre_events = self.data.events@;
                        let ev = Event {
                            trigger,
                            macro_: Some(chars_to_string(&mac)),
                            note: Some(chars_to_string(&note)),
                            data: chars_to_string(&dat),
                            data_location: (i + 1, i3 + 1),
                        };
                        self.data.events.push(ev);
                        proof {
                            let rest1 = l@.skip(i1 as int + 1);
                            let rest2 = rest1.skip(i2 as int - i1 - 1 + 1);
                            assert(rest2 =~= l@.skip(i2 as int + 1));
                            assert(tfield@ =~= l@.take(i1 as int));
                            assert(mac@ =~= rest1.take(i2 as int - i1 - 1));
                            assert(note@ =~= l@.skip(i2 as int + 1).take(i3 as int - i2 - 1));
                            assert(dat@ =~= l@.skip(i2 as int + 1).skip(i3 as int - i2 - 1 + 1));
                            assert(apply_event(pre_m, l@, i as int + 1) == Ok::<
                                SsbModel,
                                ParseErrorKind,
                            >(self.model())) by {
                                assert(self.data.events@.map_values(|e: Event| event_model(e))
                                    =~= pre_events.map_values(|e: Event| event_model(e)).push(
                                    event_model(ev),
                                ));
                                assert(self.model() =~= apply_event(pre_m, l@, i as int + 1)->Ok_0);
                            }
                        }
                    },
                    Some(Section::Resources) => {},
                }
            }
            proof {
                assert(apply_line(pre_sec, pre_m, lv[i as int], i as int + 1) == Ok::<
                    (Option<Section>, SsbModel),
                    ParseErrorKind,
                >((state.section, self.model())));
            }
            i = i + 1;
        }
        proof {
            assert(parse_from(state.section, self.model(), lv, i as int) == Ok::<
                SsbModel,
                (int, ParseErrorKind),
            >(self.model()));
        }
        Ok(())
    }

    /// View on the held script data.
    pub fn data(&self) -> (r: &Ssb)
        ensures
            ssb_model(*r) == self.model(),
    {
        &self.data
    }
}

} // verus!
