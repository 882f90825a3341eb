//! The special passage contents: story title, story data, scripts and
//! stylesheets, and the union of every kind of passage content.

use crate::context::FullContext;
use crate::context::SubContextRange;
use crate::issues::ErrorList;
use crate::issues::Warning;
use crate::issues::WarningType;
use crate::json::json_object_parse;
use crate::json::lookup_entry;
use crate::json::parse_json_object;
use crate::json::MetadataEntry;
use crate::output::Output;
use crate::position::Position;
use crate::scan::str_eq;
use crate::text::line_len_at;
use crate::twine::TwineContent;
use vstd::prelude::*;
use vstd::string::StrSliceExecFns;
use vstd::string::StringExecFns;

verus! {

/// The content of a special passage with the `StoryTitle` name, which
/// will be used as the title of a parsed story.
#[derive(Debug)]
pub struct StoryTitle {
    /// The title content
    pub title: String,

    /// The coarse position of the content
    pub position: crate::positions::Position,
}

impl StoryTitle {
    /// Parses a `StoryTitle` out of the given context: the title is the
    /// context's text, taken verbatim.
    pub fn parse(context: FullContext) -> (out: Output<Result<StoryTitle, ErrorList>>)
        requires
            context.wf(),
        ensures
            out.spec_warnings() == Seq::<Warning>::empty(),
            (match out.spec_output() {
                Ok(t) => t.title@ == context.spec_contents() && t.position
                    == crate::positions::Position::StoryLevel,
                Err(_) => false,
            }),
    {
        let title = context.get_contents().to_owned();
        Output::new(Ok(StoryTitle { title, position: crate::positions::Position::StoryLevel }))
    }
}

/// The content of a passage tagged with `script`, containing script
/// data.  No validation is done when parsing this content.
#[derive(Debug)]
pub struct ScriptContent {
    /// The full content of the passage
    pub content: String,

    /// The coarse position of the content
    pub position: crate::positions::Position,
}

impl ScriptContent {
    /// Parses a `ScriptContent` out of the given context, verbatim.
    pub fn parse(context: FullContext) -> (out: Output<Result<ScriptContent, ErrorList>>)
        requires
            context.wf(),
        ensures
            out.spec_warnings() == Seq::<Warning>::empty(),
            (match out.spec_output() {
                Ok(t) => t.content@ == context.spec_contents() && t.position
                    == crate::positions::Position::StoryLevel,
                Err(_) => false,
            }),
    {
        let content = context.get_contents().to_owned();
        Output::new(
            Ok(ScriptContent { content, position: crate::positions::Position::StoryLevel }),
        )
    }
}

/// The content of a passage tagged with `stylesheet`, containing CSS
/// data.  No validation is done when parsing this content.
#[derive(Debug)]
pub struct StylesheetContent {
    /// The stylesheet content
    pub content: String,
}

impl StylesheetContent {
    /// Parses a `StylesheetContent` out of the given context, verbatim.
    pub fn parse(context: FullContext) -> (out: Output<Result<StylesheetContent, ErrorList>>)
        requires
            context.wf(),
        ensures
            out.spec_warnings() == Seq::<Warning>::empty(),
            (match out.spec_output() {
                Ok(t) => t.content@ == context.spec_contents(),
                Err(_) => false,
            }),
    {
        let content = context.get_contents().to_owned();
        Output::new(Ok(StylesheetContent { content }))
    }
}

/// Whether a compact JSON value text is a number's: it begins with a
/// digit or a minus sign.
pub open spec fn is_number_text(t: Seq<char>) -> bool {
    t.len() > 0 && ((t[0] as u32) == 45 || (48 <= (t[0] as u32) && (t[0] as u32) <= 57))
}

/// The tag colors a `tag-colors` value text holds: the entries of the
/// JSON object it spells, each of which must map a tag to a color name.
pub open spec fn tag_colors_check(t: Seq<char>) -> Result<Seq<(Seq<char>, Seq<char>)>, ()> {
    match json_object_parse(t) {
        Ok(sub) => if forall|k: int| 0 <= k < sub.len() ==> (#[trigger] sub[k]).1 {
            Ok(sub.map_values(|e: MetadataEntry| (e.0, e.2)))
        } else {
            Err(())
        },
        Err(_) => Err(()),
    }
}

/// What the fixed StoryData schema makes of a JSON object's entries:
/// either the six fields, or the message of the schema fault.  `ifid`
/// must be present and a string; `format`, `format-version` and `start`
/// must be strings when present; `tag-colors` must be an object of
/// strings when present; `zoom` must be a number when present.  Unknown
/// keys are ignored.
pub open spec fn story_data_check(es: Seq<MetadataEntry>) -> Result<
    (Seq<char>, Option<Seq<char>>, Option<Seq<char>>, Option<Seq<char>>, Option<
        Seq<(Seq<char>, Seq<char>)>,
    >, Option<Seq<char>>),
    Seq<char>,
> {
    let ifid = lookup_entry(es, "ifid"@);
    let format = lookup_entry(es, "format"@);
    let fv = lookup_entry(es, "format-version"@);
    let start = lookup_entry(es, "start"@);
    let tc = lookup_entry(es, "tag-colors"@);
    let zoom = lookup_entry(es, "zoom"@);
    if ifid is None {
        Err("missing field `ifid`"@)
    } else if !ifid->Some_0.0 {
        Err("invalid type for `ifid`"@)
    } else if format is Some && !format->Some_0.0 {
        Err("invalid type for `format`"@)
    } else if fv is Some && !fv->Some_0.0 {
        Err("invalid type for `format-version`"@)
    } else if start is Some && !start->Some_0.0 {
        Err("invalid type for `start`"@)
    } else if tc is Some && (tc->Some_0.0 || tag_colors_check(tc->Some_0.1) is Err) {
        Err("invalid type for `tag-colors`"@)
    } else if zoom is Some && (zoom->Some_0.0 || !is_number_text(zoom->Some_0.1)) {
        Err("invalid type for `zoom`"@)
    } else {
        Ok(
            (
                ifid->Some_0.1,
                (match format {
                    Some(f) => Some(f.1),
                    None => None,
                }),
                (match fv {
                    Some(f) => Some(f.1),
                    None => None,
                }),
                (match start {
                    Some(f) => Some(f.1),
                    None => None,
                }),
                (match tc {
                    Some(f) => (match tag_colors_check(f.1) {
                        Ok(m) => Some(m),
                        Err(_) => None,
                    }),
                    None => None,
                }),
                (match zoom {
                    Some(f) => Some(f.1),
                    None => None,
                }),
            ),
        )
    }
}

/// Where a fault reported at one-based (line, column) of a span's text
/// lands in the buffer: resolved against the span's start, pulled back
/// onto the span's lines, and clamped into the line; on an empty line
/// the point degenerates to the line's empty span.  The result is the
/// start line and column and the end line and column of the point.
pub open spec fn clamped_point(
    text: Seq<char>,
    sl: int,
    sc: int,
    el: int,
    fl: int,
    fc: int,
) -> (int, int, int, int) {
    let fl1 = if fl < 1 {
        1
    } else {
        fl
    };
    let l0 = sl + fl1 - 1;
    let l = if l0 > el {
        el
    } else {
        l0
    };
    let c0 = if fl1 == 1 {
        sc + fc - 1
    } else {
        fc
    };
    let ll = line_len_at(text, l - 1);
    if ll == 0 {
        (l, 1, l, 0)
    } else {
        let c = if c0 < 1 {
            1
        } else if c0 > ll {
            ll
        } else {
            c0
        };
        (l, c, l, c)
    }
}

/// A JSON-error warning matches its description: its kind carries the
/// message, its context covers the given point of the buffer, and it has
/// no referent.
pub open spec fn json_warn_matches(
    w: Warning,
    msg: Seq<char>,
    p: (int, int, int, int),
    text: Seq<char>,
    fname: Option<Seq<char>>,
) -> bool {
    &&& (match w.kind {
        WarningType::JsonError(m) => m@ == msg,
        _ => false,
    })
    &&& (match w.context {
        Some(c) => {
            &&& c.wf()
            &&& c.text() == text
            &&& c.spec_file_name() == fname
            &&& c.spec_start().line == p.0
            &&& c.spec_start().column == p.1
            &&& c.spec_end().line == p.2
            &&& c.spec_end().column == p.3
        },
        None => false,
    })
    &&& w.referent is None
    &&& w.position == crate::positions::Position::StoryLevel
    &&& w.context_len is None
}

/// The content of a special passage with the name StoryData: a JSON
/// object with the story's identifier, format, start passage, tag colors
/// and zoom level.
#[derive(Debug)]
pub struct StoryData {
    /// Interactive Fiction IDentifier
    pub ifid: String,

    /// The story format
    pub format: Option<String>,

    /// The version of the story format
    pub format_version: Option<String>,

    /// The starting passage
    pub start: Option<String>,

    /// Tag name and color name pairs for coloring tags
    pub tag_colors: Option<Vec<(String, String)>>,

    /// Zoom level for editing in Twine, as the number's JSON text
    pub zoom: Option<String>,
}

/// A parsed `StoryData` value carries exactly the fields the schema
/// check extracted.
pub open spec fn story_data_matches(
    sd: StoryData,
    m: (Seq<char>, Option<Seq<char>>, Option<Seq<char>>, Option<Seq<char>>, Option<
        Seq<(Seq<char>, Seq<char>)>,
    >, Option<Seq<char>>),
) -> bool {
    &&& sd.ifid@ == m.0
    &&& (match (sd.format, m.1) {
        (Some(a), Some(b)) => a@ == b,
        (None, None) => true,
        _ => false,
    })
    &&& (match (sd.format_version, m.2) {
        (Some(a), Some(b)) => a@ == b,
        (None, None) => true,
        _ => false,
    })
    &&& (match (sd.start, m.3) {
        (Some(a), Some(b)) => a@ == b,
        (None, None) => true,
        _ => false,
    })
    &&& (match (sd.tag_colors, m.4) {
        (Some(a), Some(b)) => a@.map_values(|p: (String, String)| (p.0@, p.1@)) == b,
        (None, None) => true,
        _ => false,
    })
    &&& (match (sd.zoom, m.5) {
        (Some(a), Some(b)) => a@ == b,
        (None, None) => true,
        _ => false,
    })
}

} // verus!

verus! {

/// Looks up a key among parsed JSON object entries.
fn lookup_exec<'a>(entries: &'a Vec<(String, bool, String)>, key: &str) -> (r: Option<
    (bool, &'a String),
>)
    ensures
        (match r {
            Some(p) => lookup_entry(
                entries@.map_values(|e: (String, bool, String)| (e.0@, e.1, e.2@)),
                key@,
            ) == Some((p.0, p.1@)),
            None => lookup_entry(
                entries@.map_values(|e: (String, bool, String)| (e.0@, e.1, e.2@)),
                key@,
            ) is None,
        }),
{
    let ghost es = entries@.map_values(|e: (String, bool, String)| (e.0@, e.1, e.2@));
    let n = entries.len();
    proof {
        assert(es.subrange(0, n as int) =~= es);
    }
    let mut i: usize = 0;
    while i < n
        invariant
            i <= n,
            n == entries@.len(),
            es == entries@.map_values(|e: (String, bool, String)| (e.0@, e.1, e.2@)),
            lookup_entry(es, key@) == lookup_entry(es.subrange(i as int, n as int), key@),
        decreases n - i,
    {
        proof {
            let tail = es.subrange(i as int, n as int);
            assert(tail[0] == es[i as int]);
            assert(tail.subrange(1, tail.len() as int) =~= es.subrange(i as int + 1, n as int));
        }
        if str_eq(entries[i].0.as_str(), key) {
            return Some((entries[i].1, &entries[i].2));
        }
        i += 1;
    }
    proof {
        assert(es.subrange(n as int, n as int) =~= Seq::<MetadataEntry>::empty());
    }
    None
}

/// Whether this text is a JSON number's.
fn is_number_text_exec(t: &str) -> (r: bool)
    ensures
        r == is_number_text(t@),
{
    let n = t.unicode_len();
    if n == 0 {
        false
    } else {
        let u = t.get_char(0) as u32;
        u == 45 || (48 <= u && u <= 57)
    }
}

/// Reads a `tag-colors` value text as a map from tag to color name.
fn tag_colors_exec(t: &str) -> (r: Option<Vec<(String, String)>>)
    ensures
        (match r {
            Some(v) => tag_colors_check(t@) == Ok::<Seq<(Seq<char>, Seq<char>)>, ()>(
                v@.map_values(|p: (String, String)| (p.0@, p.1@)),
            ),
            None => tag_colors_check(t@) is Err,
        }),
{
    match parse_json_object(t) {
        Err(_) => None,
        Ok(sub) => {
            let ghost es = sub@.map_values(|e: (String, bool, String)| (e.0@, e.1, e.2@));
            let mut v: Vec<(String, String)> = Vec::new();
            let n = sub.len();
            let mut i: usize = 0;
            while i < n
                invariant
                    i <= n,
                    n == sub@.len(),
                    es == sub@.map_values(|e: (String, bool, String)| (e.0@, e.1, e.2@)),
                    json_object_parse(t@) == Ok::<Seq<MetadataEntry>, (Seq<char>, int, int)>(es),
                    forall|j: int| 0 <= j < i ==> (#[trigger] es[j]).1,
                    v@.map_values(|p: (String, String)| (p.0@, p.1@)) == es.subrange(
                        0,
                        i as int,
                    ).map_values(|e: MetadataEntry| (e.0, e.2)),
                decreases n - i,
            {
                if !sub[i].1 {
                    proof {
                        assert(!(es[i as int]).1);
                    }
                    return None;
                }
                let pair = (sub[i].0.clone(), sub[i].2.clone());
                v.push(pair);
                proof {
                    assert(es.subrange(0, i as int + 1) =~= es.subrange(0, i as int).push(
                        es[i as int],
                    ));
                    assert(es.subrange(0, i as int + 1).map_values(|e: MetadataEntry| (e.0, e.2))
                        =~= es.subrange(0, i as int).map_values(
                        |e: MetadataEntry| (e.0, e.2),
                    ).push((es[i as int].0, es[i as int].2)));
                    assert(v@.map_values(|p: (String, String)| (p.0@, p.1@)) =~= es.subrange(
                        0,
                        i as int + 1,
                    ).map_values(|e: MetadataEntry| (e.0, e.2)));
                }
                i += 1;
            }
            proof {
                assert(es.subrange(0, n as int) =~= es);
            }
            Some(v)
        },
    }
}

/// Applies the fixed StoryData schema to a JSON object's entries.
fn story_data_from_entries(entries: &Vec<(String, bool, String)>) -> (r: Result<StoryData, String>)
    ensures
        (match (
            r,
            story_data_check(
                entries@.map_values(|e: (String, bool, String)| (e.0@, e.1, e.2@)),
            ),
        ) {
            (Ok(sd), Ok(m)) => story_data_matches(sd, m),
            (Err(msg), Err(e)) => msg@ == e,
            _ => false,
        }),
{
    let ifid = lookup_exec(entries, "ifid");
    let format = lookup_exec(entries, "format");
    let fv = lookup_exec(entries, "format-version");
    let start = lookup_exec(entries, "start");
    let tc = lookup_exec(entries, "tag-colors");
    let zoom = lookup_exec(entries, "zoom");
    let ifid = match ifid {
        None => {
            return Err(String::from_str("missing field `ifid`"));
        },
        Some((false, _)) => {
            return Err(String::from_str("invalid type for `ifid`"));
        },
        Some((true, t)) => t.clone(),
    };
    let format = match format {
        None => None,
        Some((false, _)) => {
            return Err(String::from_str("invalid type for `format`"));
        },
        Some((true, t)) => Some(t.clone()),
    };
    let format_version = match fv {
        None => None,
        Some((false, _)) => {
            return Err(String::from_str("invalid type for `format-version`"));
        },
        Some((true, t)) => Some(t.clone()),
    };
    let start = match start {
        None => None,
        Some((false, _)) => {
            return Err(String::from_str("invalid type for `start`"));
        },
        Some((true, t)) => Some(t.clone()),
    };
    let tag_colors = match tc {
        None => None,
        Some((true, _)) => {
            return Err(String::from_str("invalid type for `tag-colors`"));
        },
        Some((false, t)) => match tag_colors_exec(t.as_str()) {
            None => {
                return Err(String::from_str("invalid type for `tag-colors`"));
            },
            Some(v) => Some(v),
        },
    };
    let zoom = match zoom {
        None => None,
        Some((true, _)) => {
            return Err(String::from_str("invalid type for `zoom`"));
        },
        Some((false, t)) => {
            if !is_number_text_exec(t.as_str()) {
                return Err(String::from_str("invalid type for `zoom`"));
            }
            Some(t.clone())
        },
    };
    Ok(StoryData { ifid, format, format_version, start, tag_colors, zoom })
}

} // verus!

verus! {

/// Builds the context of a fault reported at one-based (line, column)
/// within the given span's text: its clamped point in the buffer.
#[verifier::rlimit(60)]
fn point_context(context: &FullContext, fl: usize, fc: usize) -> (r: FullContext)
    requires
        context.wf(),
    ensures
        r.wf(),
        r.text() == context.text(),
        r.spec_file_name() == context.spec_file_name(),
        (r.spec_start().line as int, r.spec_start().column as int, r.spec_end().line as int,
        r.spec_end().column as int) == clamped_point(
            context.text(),
            context.spec_start().line as int,
            context.spec_start().column as int,
            context.spec_end().line as int,
            fl as int,
            fc as int,
        ),
{
    let ghost text = context.text();
    let sl = context.get_start_position().line;
    let sc = context.get_start_position().column;
    let el = context.get_end_position().line;
    proof {
        crate::text::lemma_span_lines_ordered(
            text,
            sl as int,
            sc as int,
            el as int,
            context.spec_end().column as int,
        );
        crate::text::lemma_line_starts(text);
    }
    let fl1 = if fl < 1 {
        1
    } else {
        fl
    };
    let l = if fl1 - 1 > el - sl {
        el
    } else {
        sl + (fl1 - 1)
    };
    proof {
        crate::text::lemma_line_in_bounds(text, l as int - 1);
    }
    let ll = context.line_len(l);
    if ll == 0 {
        context.subcontext(
            SubContextRange::between(Position::abs(l, 1), Position::abs(l, 0)),
        )
    } else {
        let c0 = if fl1 == 1 {
            (sc - 1).saturating_add(fc)
        } else {
            fc
        };
        let c = if c0 < 1 {
            1
        } else if c0 > ll {
            ll
        } else {
            c0
        };
        proof {
            let spec_c0: int = if fl1 == 1 {
                sc + fc - 1
            } else {
                fc as int
            };
            assert(ll as int <= text.len());
            assert(c as int == (if spec_c0 < 1 {
                1int
            } else if spec_c0 > ll {
                ll as int
            } else {
                spec_c0
            }));
        }
        context.subcontext(
            SubContextRange::between(Position::abs(l, c), Position::abs(l, c)),
        )
    }
}

impl StoryData {
    /// Parses a `StoryData` out of the given context.  A JSON parse
    /// failure, or a JSON object that does not fit the StoryData schema,
    /// degrades to "no story data" plus one `JsonError` warning placed at
    /// the reported position (for a parse failure) or at the start of
    /// the content (for a schema fault); it never fails the passage.
    pub fn parse(context: FullContext) -> (out: Output<Result<Option<StoryData>, ErrorList>>)
        requires
            context.wf(),
        ensures
            out.spec_output() is Ok,
            (match json_object_parse(context.spec_contents()) {
                Err(f) => {
                    &&& (match out.spec_output() {
                        Ok(od) => od is None,
                        _ => false,
                    })
                    &&& out.spec_warnings().len() == 1
                    &&& json_warn_matches(
                        out.spec_warnings()[0],
                        f.0,
                        clamped_point(
                            context.text(),
                            context.spec_start().line as int,
                            context.spec_start().column as int,
                            context.spec_end().line as int,
                            f.1,
                            f.2,
                        ),
                        context.text(),
                        context.spec_file_name(),
                    )
                },
                Ok(es) => (match story_data_check(es) {
                    Err(msg) => {
                        &&& (match out.spec_output() {
                            Ok(od) => od is None,
                            _ => false,
                        })
                        &&& out.spec_warnings().len() == 1
                        &&& json_warn_matches(
                            out.spec_warnings()[0],
                            msg,
                            clamped_point(
                                context.text(),
                                context.spec_start().line as int,
                                context.spec_start().column as int,
                                context.spec_end().line as int,
                                1,
                                1,
                            ),
                            context.text(),
                            context.spec_file_name(),
                        )
                    },
                    Ok(m) => {
                        &&& (match out.spec_output() {
                            Ok(Some(sd)) => story_data_matches(sd, m),
                            _ => false,
                        })
                        &&& out.spec_warnings() == Seq::<Warning>::empty()
                    },
                }),
            }),
    {
        let s = context.get_contents();
        match parse_json_object(s) {
            Err(f) => {
                let wctx = point_context(&context, f.line, f.column);
                let mut warnings: Vec<Warning> = Vec::new();
                warnings.push(Warning::new(WarningType::JsonError(f.message), Some(wctx)));
                Output::new(Ok(None)).with_warnings(warnings)
            },
            Ok(entries) => match story_data_from_entries(&entries) {
                Ok(sd) => Output::new(Ok(Some(sd))),
                Err(msg) => {
                    let wctx = point_context(&context, 1, 1);
                    let mut warnings: Vec<Warning> = Vec::new();
                    warnings.push(Warning::new(WarningType::JsonError(msg), Some(wctx)));
                    Output::new(Ok(None)).with_warnings(warnings)
                },
            },
        }
    }
}

/// The types of content that can be inside a passage.
#[derive(Debug)]
pub enum PassageContent {
    /// A non-special passage that contains Twine content
    Normal(TwineContent),
    /// A passage that contains the title of the story
    StoryTitle(StoryTitle),
    /// A passage that contains the story data defined by the specification
    StoryData(Option<StoryData>),
    /// A passage that is tagged with `script` and contains a script
    Script(ScriptContent),
    /// A passage that is tagged with `stylesheet` and contains CSS
    Stylesheet(StylesheetContent),
}

impl core::convert::From<TwineContent> for PassageContent {
    /// Wraps ordinary Twine content.
    fn from(p: TwineContent) -> (r: PassageContent)
        ensures
            r == PassageContent::Normal(p),
    {
        PassageContent::Normal(p)
    }
}

impl vstd::std_specs::convert::FromSpecImpl<TwineContent> for PassageContent {
    open spec fn obeys_from_spec() -> bool {
        true
    }

    open spec fn from_spec(p: TwineContent) -> PassageContent {
        PassageContent::Normal(p)
    }
}

impl core::convert::From<StoryTitle> for PassageContent {
    /// Wraps a story title.
    fn from(t: StoryTitle) -> (r: PassageContent)
        ensures
            r == PassageContent::StoryTitle(t),
    {
        PassageContent::StoryTitle(t)
    }
}

impl vstd::std_specs::convert::FromSpecImpl<StoryTitle> for PassageContent {
    open spec fn obeys_from_spec() -> bool {
        true
    }

    open spec fn from_spec(t: StoryTitle) -> PassageContent {
        PassageContent::StoryTitle(t)
    }
}

impl core::convert::From<Option<StoryData>> for PassageContent {
    /// Wraps parsed story data, or its absence.
    fn from(d: Option<StoryData>) -> (r: PassageContent)
        ensures
            r == PassageContent::StoryData(d),
    {
        PassageContent::StoryData(d)
    }
}

impl vstd::std_specs::convert::FromSpecImpl<Option<StoryData>> for PassageContent {
    open spec fn obeys_from_spec() -> bool {
        true
    }

    open spec fn from_spec(d: Option<StoryData>) -> PassageContent {
        PassageContent::StoryData(d)
    }
}

impl core::convert::From<ScriptContent> for PassageContent {
    /// Wraps script content.
    fn from(s: ScriptContent) -> (r: PassageContent)
        ensures
            r == PassageContent::Script(s),
    {
        PassageContent::Script(s)
    }
}

impl vstd::std_specs::convert::FromSpecImpl<ScriptContent> for PassageContent {
    open spec fn obeys_from_spec() -> bool {
        true
    }

    open spec fn from_spec(s: ScriptContent) -> PassageContent {
        PassageContent::Script(s)
    }
}

impl core::convert::From<StylesheetContent> for PassageContent {
    /// Wraps stylesheet content.
    fn from(s: StylesheetContent) -> (r: PassageContent)
        ensures
            r == PassageContent::Stylesheet(s),
    {
        PassageContent::Stylesheet(s)
    }
}

impl vstd::std_specs::convert::FromSpecImpl<StylesheetContent> for PassageContent {
    open spec fn obeys_from_spec() -> bool {
        true
    }

    open spec fn from_spec(s: StylesheetContent) -> PassageContent {
        PassageContent::Stylesheet(s)
    }
}

} // verus!
