//! A complete Twee passage: header line plus content, with the span the
//! passage covers.

use crate::contents::story_data_check;
use crate::contents::story_data_matches;
use crate::contents::PassageContent;
use crate::contents::ScriptContent;
use crate::contents::StoryData;
use crate::contents::StoryTitle;
use crate::contents::StylesheetContent;
use crate::context::FullContext;
use crate::context::SubContextRange;
use crate::header::header_err_descs;
use crate::header::header_errs_match_seq;
use crate::header::header_meta_entries;
use crate::header::header_warn_descs;
use crate::header::header_warns_match_seq;
use crate::header::name_of;
use crate::header::tags_of;
use crate::header::PassageHeader;
use crate::issues::errors_of;
use crate::issues::Error;
use crate::issues::ErrorList;
use crate::issues::Warning;
use crate::issues::WarningType;
use crate::json::json_object_parse;
use crate::json::Metadata;
use crate::output::Output;
use crate::position::Position;
use crate::scan::str_eq;
use crate::text::line_len_at;
use crate::text::line_start;
use crate::text::num_lines;
use crate::twine::line_of;
use crate::twine::links_in_lines;
use crate::twine::links_match_seq;
use crate::twine::warns_in_lines;
use crate::twine::warns_match_seq;
use crate::twine::TwineContent;
use vstd::prelude::*;

verus! {

/// The last line of the span that is not empty, or `sl - 1` if every
/// line is.
pub open spec fn last_nonempty_line(text: Seq<char>, sl: int, el: int) -> int
    decreases el - sl + 1,
{
    if el < sl || el - sl + 1 < 0 {
        sl - 1
    } else if line_len_at(text, el - 1) > 0 {
        el
    } else {
        last_nonempty_line(text, sl, el - 1)
    }
}

/// Whether the passage has any body line: a non-empty line after the
/// header line.
pub open spec fn has_body(text: Seq<char>, sl: int, el: int) -> bool {
    last_nonempty_line(text, sl, el) >= sl + 1
}

/// The characters of the passage's body: from the line after the header
/// through the last non-empty line, or nothing.
pub open spec fn body_text(text: Seq<char>, sl: int, el: int) -> Seq<char> {
    if has_body(text, sl, el) {
        let bl = last_nonempty_line(text, sl, el);
        text.subrange(
            line_start(text, sl + 1 - 1),
            line_start(text, bl - 1) + line_len_at(text, bl - 1),
        )
    } else {
        Seq::empty()
    }
}

/// Which parser the header dispatches the body to: 0 for a story title,
/// 1 for story data, 2 for a script, 3 for a stylesheet, 4 for ordinary
/// Twine content.
pub open spec fn dispatch_of(hline: Seq<char>) -> int {
    if name_of(hline) == "StoryTitle"@ {
        0
    } else if name_of(hline) == "StoryData"@ {
        1
    } else if tags_of(hline).contains("script"@) {
        2
    } else if tags_of(hline).contains("stylesheet"@) {
        3
    } else {
        4
    }
}

/// A complete Twee passage, including header and content, carrying the
/// context of its whole span.
#[derive(Debug)]
pub struct Passage {
    /// The header
    pub header: PassageHeader,

    /// The content
    pub content: PassageContent,

    /// The span of the whole passage: header line and body
    pub context: FullContext,
}

impl Passage {
    /// Combines the parse outputs of a header and of a content into one
    /// passage: their warnings are joined; if either failed, their error
    /// lists are joined and the passage fails.
    pub fn new(
        header: Output<Result<PassageHeader, ErrorList>>,
        content: Output<Result<PassageContent, ErrorList>>,
        context: FullContext,
    ) -> (out: Output<Result<Passage, ErrorList>>)
        requires
            (match header.spec_output() {
                Err(e) => e.errors@.len() > 0,
                Ok(_) => true,
            }),
            (match content.spec_output() {
                Err(e) => e.errors@.len() > 0,
                Ok(_) => true,
            }),
        ensures
            out.spec_warnings() == header.spec_warnings() + content.spec_warnings(),
            (match (header.spec_output(), content.spec_output()) {
                (Ok(h), Ok(c)) => (match out.spec_output() {
                    Ok(p) => p.header == h && p.content == c && p.context == context,
                    Err(_) => false,
                }),
                _ => (match out.spec_output() {
                    Err(el) => el.errors@ == errors_of(header.spec_output()) + errors_of(
                        content.spec_output(),
                    ),
                    Ok(_) => false,
                }),
            }),
    {
        let (mut header_res, mut warnings) = header.take();
        let (mut content_res, mut content_warnings) = content.take();
        warnings.append(&mut content_warnings);
        let possible_errors = ErrorList::merge(&mut header_res, &mut content_res);
        let out = match possible_errors {
            Err(e) => {
                proof {
                    assert(errors_of(header.spec_output()) + errors_of(content.spec_output())
                        =~= e.errors@);
                }
                Output::new(Err(e))
            },
            Ok(_) => match (header_res, content_res) {
                (Ok(h), Ok(c)) => Output::new(
                    Ok(Passage { header: h, content: c, context }),
                ),
                _ => {
                    proof {
                        assert(false);
                    }
                    unreached()
                },
            },
        };
        out.with_warnings(warnings)
    }

    /// Returns a reference to the metadata contained by the `header` field.
    pub fn metadata(&self) -> (r: &Metadata)
        ensures
            r == self.header.metadata,
    {
        &self.header.metadata
    }

    /// Returns a reference to the list of tags contained by the `header` field.
    pub fn tags(&self) -> (r: &Vec<String>)
        ensures
            r == self.header.tags,
    {
        &self.header.tags
    }
}

} // verus!

verus! {

/// Everything `Passage::parse` promises of a successful passage parsed
/// out of the whole-line span `sl..=el` of `text`: the header line's
/// name, tags and metadata models; the passage's context trimmed to the
/// last non-empty line; the content the header dispatches to, with its
/// exact payload; and the warnings `ws` — the header's first, then the
/// content's.
pub open spec fn span_parse_ok(
    p: Passage,
    ws: Seq<Warning>,
    text: Seq<char>,
    fname: Option<Seq<char>>,
    sl: int,
    el: int,
) -> bool {
    let hline = line_of(text, sl);
    let bt = body_text(text, sl, el);
    let bl = last_nonempty_line(text, sl, el);
    &&& header_err_descs(hline).len() == 0
    &&& p.header.name@ == name_of(hline)
    &&& p.header.tags@.map_values(|t: String| t@) == tags_of(hline)
    &&& p.header.metadata.spec_entries() == header_meta_entries(hline)
    &&& p.context.wf()
    &&& p.context.text() == text
    &&& p.context.spec_file_name() == fname
    &&& p.context.spec_start().line == sl
    &&& p.context.spec_start().column == 1
    &&& p.context.spec_end().line as int == (if has_body(text, sl, el) {
        bl
    } else {
        sl
    })
    &&& p.context.spec_end().column as int == line_len_at(
        text,
        (if has_body(text, sl, el) {
            bl
        } else {
            sl
        }) - 1,
    )
    &&& ws.len() >= header_warn_descs(hline).len()
    &&& header_warns_match_seq(
        ws.subrange(0, header_warn_descs(hline).len() as int),
        header_warn_descs(hline),
        hline,
        text,
        sl,
        fname,
    )
    &&& ({
        let cw = ws.subrange(header_warn_descs(hline).len() as int, ws.len() as int);
        match p.content {
            PassageContent::StoryTitle(t) => dispatch_of(hline) == 0 && t.title@ == bt
                && cw.len() == 0,
            PassageContent::StoryData(od) => dispatch_of(hline) == 1 && (match json_object_parse(
                bt,
            ) {
                Ok(es) => match story_data_check(es) {
                    Ok(m) => (match od {
                        Some(sd) => story_data_matches(sd, m) && cw.len() == 0,
                        None => false,
                    }),
                    Err(msg) => od is None && cw.len() == 1 && (match cw[0].kind {
                        WarningType::JsonError(wm) => wm@ == msg,
                        _ => false,
                    }),
                },
                Err(f) => od is None && cw.len() == 1 && (match cw[0].kind {
                    WarningType::JsonError(wm) => wm@ == f.0,
                    _ => false,
                }),
            }),
            PassageContent::Script(sc) => dispatch_of(hline) == 2 && sc.content@ == bt
                && cw.len() == 0,
            PassageContent::Stylesheet(st) => dispatch_of(hline) == 3 && st.content@ == bt
                && cw.len() == 0,
            PassageContent::Normal(tc) => {
                &&& dispatch_of(hline) == 4
                &&& tc.content@ == bt.push('\n')
                &&& tc.pid == 1
                &&& (if has_body(text, sl, el) {
                    &&& links_match_seq(
                        tc.spec_links(),
                        links_in_lines(text, sl + 1, bl),
                        text,
                        fname,
                    )
                    &&& warns_match_seq(cw, warns_in_lines(text, sl + 1, bl), text, fname)
                } else {
                    tc.spec_links().len() == 0 && cw.len() == 0
                })
            },
        }
    })
}

/// Everything `Passage::parse` promises of a failed passage: its header
/// line raised errors, they are all reported with their contexts, and no
/// warnings ride along.
pub open spec fn span_parse_err(
    es: Seq<Error>,
    ws: Seq<Warning>,
    text: Seq<char>,
    fname: Option<Seq<char>>,
    sl: int,
) -> bool {
    let hline = line_of(text, sl);
    &&& header_err_descs(hline).len() > 0
    &&& header_errs_match_seq(es, header_err_descs(hline), text, sl, fname)
    &&& ws.len() == 0
}

} // verus!

verus! {

impl Passage {
    /// Parses a passage out of the given context, which must span whole
    /// lines: the first line is parsed as the header; if that fails, the
    /// passage fails with the header's errors and the content is not
    /// attempted.  Otherwise the body — the lines after the header, up
    /// to the last non-empty one — is parsed as the content the header's
    /// name and tags call for, and the passage carries the whole span.
    #[verifier::rlimit(100)]
    #[verifier::spinoff_prover]
    pub fn parse(context: FullContext) -> (out: Output<Result<Passage, ErrorList>>)
        requires
            context.wf(),
            context.spec_start().column == 1,
            context.spec_end().column as int == line_len_at(
                context.text(),
                context.spec_end().line as int - 1,
            ),
        ensures
            ({
                let text = context.text();
                let fname = context.spec_file_name();
                let sl = context.spec_start().line as int;
                let el = context.spec_end().line as int;
                match out.spec_output() {
                    Err(elist) => span_parse_err(
                        elist.errors@,
                        out.spec_warnings(),
                        text,
                        fname,
                        sl,
                    ),
                    Ok(p) => span_parse_ok(p, out.spec_warnings(), text, fname, sl, el),
                }
            }),
    {
        let ghost text = context.text();
        let ghost fname = context.spec_file_name();
        let sl = context.get_start_position().line;
        let el = context.get_end_position().line;
        proof {
            crate::text::lemma_span_lines_ordered(
                text,
                sl as int,
                context.spec_start().column as int,
                el as int,
                context.spec_end().column as int,
            );
            crate::text::lemma_line_starts(text);
        }
        let hll = context.line_len(sl);
        let header_ctx = context.subcontext(
            SubContextRange::between(Position::abs(sl, 1), Position::abs(sl, hll)),
        );
        let header = PassageHeader::parse(header_ctx);
        let (hres, hwarns) = header.take();
        let h = match hres {
            Ok(h) => h,
            Err(e) => {
                proof {
                    assert(hwarns@ =~= Seq::<Warning>::empty());
                }
                return Output::new(Err(e)).with_warnings(hwarns);
            },
        };
        // Find the last non-empty line of the span
        let mut bl = el;
        while bl > sl && context.line_len(bl) == 0
            invariant
                context.wf(),
                text == context.text(),
                sl == context.spec_start().line,
                el == context.spec_end().line,
                sl <= bl <= el,
                el as int <= num_lines(text),
                1 <= sl,
                last_nonempty_line(text, sl as int, el as int) == last_nonempty_line(
                    text,
                    sl as int,
                    bl as int,
                ),
            decreases bl,
        {
            bl -= 1;
        }
        proof {
            if bl > sl {
                assert(last_nonempty_line(text, sl as int, bl as int) == bl as int);
            } else {
                assert(bl == sl);
            }
        }
        let has_b = bl > sl;
        let body_ctx = if has_b {
            let bll = context.line_len(bl);
            proof {
                assert(line_start(text, sl as int) <= line_start(text, bl as int - 1));
            }
            context.subcontext(
                SubContextRange::between(Position::abs(sl + 1, 1), Position::abs(bl, bll)),
            )
        } else {
            proof {
                assert(last_nonempty_line(text, sl as int, el as int) == (if line_len_at(
                    text,
                    sl as int - 1,
                ) > 0 {
                    sl as int
                } else {
                    sl as int - 1
                }));
            }
            context.subcontext(
                SubContextRange::between(Position::abs(sl, hll + 1), Position::abs(sl, hll)),
            )
        };
        proof {
            assert(body_ctx.spec_contents() == body_text(text, sl as int, el as int));
        }
        // Dispatch on the header's name and tags
        let content: Output<Result<PassageContent, ErrorList>> = if str_eq(
            h.name.as_str(),
            "StoryTitle",
        ) {
            let o = StoryTitle::parse(body_ctx);
            let (r, w) = o.take();
            match r {
                Ok(t) => Output::new(Ok(PassageContent::StoryTitle(t))).with_warnings(w),
                Err(_) => unreached(),
            }
        } else if str_eq(h.name.as_str(), "StoryData") {
            let o = StoryData::parse(body_ctx);
            let (r, w) = o.take();
            match r {
                Ok(od) => Output::new(Ok(PassageContent::StoryData(od))).with_warnings(w),
                Err(_) => unreached(),
            }
        } else if h.has_tag("script") {
            let o = ScriptContent::parse(body_ctx);
            let (r, w) = o.take();
            match r {
                Ok(sc) => Output::new(Ok(PassageContent::Script(sc))).with_warnings(w),
                Err(_) => unreached(),
            }
        } else if h.has_tag("stylesheet") {
            let o = StylesheetContent::parse(body_ctx);
            let (r, w) = o.take();
            match r {
                Ok(st) => Output::new(Ok(PassageContent::Stylesheet(st))).with_warnings(w),
                Err(_) => unreached(),
            }
        } else if has_b {
            let o = TwineContent::parse(body_ctx);
            let (r, w) = o.take();
            match r {
                Ok(tc) => Output::new(Ok(PassageContent::Normal(tc))).with_warnings(w),
                Err(_) => unreached(),
            }
        } else {
            let mut one = String::new();
            crate::scan::push_char(&mut one, '\n');
            let tc = TwineContent { content: one, pid: 1, links: Vec::new() };
            proof {
                assert(tc.content@ =~= body_text(text, sl as int, el as int).push('\n'));
            }
            Output::new(Ok(PassageContent::Normal(tc)))
        };
        let trimmed_end = if has_b {
            bl
        } else {
            sl
        };
        let tll = context.line_len(trimmed_end);
        proof {
            if has_b {
                assert(line_start(text, sl as int - 1) <= line_start(
                    text,
                    trimmed_end as int - 1,
                ));
            }
        }
        let trimmed = context.subcontext(
            SubContextRange::between(Position::abs(sl, 1), Position::abs(trimmed_end, tll)),
        );
        let header_again = Output::new(Ok(h)).with_warnings(hwarns);
        let out = Passage::new(header_again, content, trimmed);
        proof {
            assert(out.spec_warnings().subrange(0, hwarns@.len() as int) =~= hwarns@);
            assert(out.spec_warnings().subrange(
                hwarns@.len() as int,
                out.spec_warnings().len() as int,
            ) =~= out.spec_warnings().skip(hwarns@.len() as int));
        }
        out
    }
}

} // verus!
