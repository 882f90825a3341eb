//! The passage-header micro-parser: sigil, tag block, JSON metadata
//! block, and escape handling on one header line.

use crate::context::FullContext;
use crate::context::SubContextRange;
use crate::issues::Error;
use crate::issues::ErrorList;
use crate::issues::ErrorType;
use crate::issues::Warning;
use crate::issues::WarningType;
use crate::json::default_metadata_entries;
use crate::json::json_object_parse;
use crate::json::parse_json_object;
use crate::json::set_entries;
use crate::json::Metadata;
use crate::json::MetadataEntry;
use crate::json::MetadataValue;
use crate::output::Output;
use crate::position::Position;
use crate::scan::escaped_in;
use crate::scan::find_all_escaped;
use crate::scan::find_all_unescaped;
use crate::scan::find_last_unescaped;
use crate::scan::first_non_ws;
use crate::scan::last_unescaped;
use crate::scan::lemma_escaped_in;
use crate::scan::lemma_last_index_of;
use crate::scan::lemma_trim_start_at;
use crate::scan::lemma_unescaped_in;
use crate::scan::remove_backslashes;
use crate::scan::split_whitespace_str;
use crate::scan::split_ws;
use crate::scan::trim_spec;
use crate::scan::trim_str;
use crate::scan::unescaped_at;
use crate::scan::unescaped_in;
use crate::scan::without_backslashes;
use crate::scan::str_eq;
use crate::text::line_len_at;
use vstd::prelude::*;
use vstd::string::StrSliceExecFns;

verus! {

/// Whether the line begins with the `::` sigil.
pub open spec fn has_sigil(s: Seq<char>) -> bool {
    s.len() >= 2 && s[0] == ':' && s[1] == ':'
}

/// The error the sigil check raises, if any: whitespace hides the sigil,
/// or there is none at all.
pub open spec fn sigil_error(s: Seq<char>) -> Option<ErrorType> {
    if has_sigil(s) {
        None
    } else if has_sigil(crate::scan::trim_start_spec(s)) {
        Some(ErrorType::LeadingWhitespace)
    } else {
        Some(ErrorType::MissingSigil)
    }
}

/// The best-effort guess at the metadata block's half-open span: from the
/// matched unescaped `{` to one past the last unescaped `}`, or to the
/// end of the line when no `}` closes it; unbalanced braces pair the last
/// closers with the last openers.
pub open spec fn meta_range(s: Seq<char>) -> Option<(int, int)> {
    let opens = unescaped_in(s, '{');
    let closes = unescaped_in(s, '}');
    if opens.len() == 0 {
        None
    } else if closes.len() == 0 {
        Some((opens.last(), s.len() as int))
    } else if opens.len() > closes.len() {
        Some((opens[opens.len() - closes.len()], closes.last() + 1))
    } else {
        Some((opens[0], closes.last() + 1))
    }
}

/// The text of the guessed metadata block; empty when the guess is
/// degenerate.
pub open spec fn meta_text(s: Seq<char>) -> Seq<char> {
    match meta_range(s) {
        Some((a, b)) => if a <= b {
            s.subrange(a, b)
        } else {
            Seq::empty()
        },
        None => s,
    }
}

/// Where the passage name can no longer reach: the metadata block's
/// start, or the end of the line.
pub open spec fn name_end_pre(s: Seq<char>) -> int {
    match meta_range(s) {
        Some((a, _)) => a,
        None => s.len() as int,
    }
}

/// The offset of the tag block's opening `[`, if its last occurrence
/// before the metadata is unescaped.
pub open spec fn tag_open(s: Seq<char>) -> Option<int> {
    last_unescaped(s.subrange(0, name_end_pre(s)), '[')
}

/// The offset, within the text after the tag opener, of the tag block's
/// closing `]`, if its last occurrence there is unescaped.
pub open spec fn tag_close(s: Seq<char>) -> Option<int> {
    match tag_open(s) {
        Some(p) => last_unescaped(s.subrange(p + 1, name_end_pre(s)), ']'),
        None => None,
    }
}

/// The tags of the header: the whitespace-split words of the closed tag
/// block, or none.
pub open spec fn tags_of(s: Seq<char>) -> Seq<Seq<char>> {
    match (tag_open(s), tag_close(s)) {
        (Some(p), Some(q)) => split_ws(s.subrange(p + 1, p + 1 + q)),
        _ => Seq::empty(),
    }
}

/// Where the passage name ends: at the tag block if there is one, else
/// where the metadata begins, else at the end of the line.
pub open spec fn name_end(s: Seq<char>) -> int {
    match tag_open(s) {
        Some(p) => p,
        None => name_end_pre(s),
    }
}

/// The characters the name checks look at: everything before `name_end`.
pub open spec fn name_region(s: Seq<char>) -> Seq<char> {
    s.subrange(0, name_end(s))
}

/// The passage name: the text between the sigil and the name's end,
/// trimmed, with every backslash removed.
pub open spec fn name_of(s: Seq<char>) -> Seq<char> {
    if name_end(s) > 2 {
        without_backslashes(trim_spec(s.subrange(2, name_end(s))))
    } else {
        Seq::empty()
    }
}

/// Whether a tag block opens after the metadata block ends.
pub open spec fn meta_before_tags(s: Seq<char>) -> bool {
    match meta_range(s) {
        Some((_, b)) => if b <= s.len() {
            last_unescaped(s.subrange(b, s.len() as int), '[') is Some
        } else {
            false
        },
        None => false,
    }
}

/// The column at which a metadata JSON fault at column `fc` of the block
/// is reported: offset by the block's start and clamped into the line.
pub open spec fn meta_fault_col(s: Seq<char>, a: int, fc: int) -> int {
    if a + fc < 1 {
        1
    } else if a + fc > s.len() {
        s.len() as int
    } else {
        a + fc
    }
}

/// The message of the metadata JSON fault, when there is one.
pub open spec fn meta_fault_msg(s: Seq<char>) -> Seq<char> {
    match json_object_parse(meta_text(s)) {
        Err(f) => f.0,
        Ok(_) => Seq::empty(),
    }
}

/// The metadata the header ends up with: the defaults, with the parsed
/// block's entries laid over them when the block parses.
pub open spec fn header_meta_entries(s: Seq<char>) -> Seq<MetadataEntry> {
    match meta_range(s) {
        None => default_metadata_entries(),
        Some(_) => match json_object_parse(meta_text(s)) {
            Ok(es) => set_entries(default_metadata_entries(), es),
            Err(_) => default_metadata_entries(),
        },
    }
}

/// The column the empty-name error is reported at: just after the sigil,
/// pulled back onto the line.
pub open spec fn empty_name_col(s: Seq<char>) -> int {
    if s.len() + 1 < 3 {
        s.len() as int + 1
    } else {
        3
    }
}

/// The errors the header raises, in the order they are found: the sigil
/// check, metadata before tags, an unclosed tag block, the first
/// unescaped brace or bracket of each kind in the name, and an empty
/// name.  Each error carries the columns its context spans.
pub open spec fn header_err_descs(s: Seq<char>) -> Seq<(ErrorType, int, int)> {
    let ll = s.len() as int;
    let sig: Seq<(ErrorType, int, int)> = match sigil_error(s) {
        Some(e) => seq![(e, 1, ll)],
        None => Seq::empty(),
    };
    let mbt: Seq<(ErrorType, int, int)> = if meta_before_tags(s) {
        seq![(ErrorType::MetadataBeforeTags, meta_range(s)->Some_0.0 + 1, ll)]
    } else {
        Seq::empty()
    };
    let utb: Seq<(ErrorType, int, int)> = if tag_open(s) is Some && tag_close(s) is None {
        seq![(ErrorType::UnclosedTagBlock, tag_open(s)->Some_0 + 1, ll)]
    } else {
        Seq::empty()
    };
    let en: Seq<(ErrorType, int, int)> = if name_of(s).len() == 0 {
        seq![(ErrorType::EmptyName, empty_name_col(s), ll)]
    } else {
        Seq::empty()
    };
    sig + mbt + utb + unesc_desc(s, '{', ErrorType::UnescapedOpenCurly) + unesc_desc(
        s,
        '}',
        ErrorType::UnescapedCloseCurly,
    ) + unesc_desc(s, '[', ErrorType::UnescapedOpenSquare) + unesc_desc(
        s,
        ']',
        ErrorType::UnescapedCloseSquare,
    ) + en
}

/// The error the name check for one character class raises: the first
/// unescaped occurrence in the name region, as a one-column span.
pub open spec fn unesc_desc(s: Seq<char>, c: char, e: ErrorType) -> Seq<(ErrorType, int, int)> {
    let u = unescaped_in(name_region(s), c);
    if u.len() > 0 {
        seq![(e, u[0] + 1, u[0] + 1)]
    } else {
        Seq::empty()
    }
}

/// The warnings the header raises while it still succeeds, in order: a
/// JSON-error warning if the metadata block does not parse, then a
/// warning for each escaped brace or bracket in the name, class by
/// class.  Class 0 is the JSON warning; classes 1 to 4 are `\{`, `\}`,
/// `\[`, `\]`.
pub open spec fn header_warn_descs(s: Seq<char>) -> Seq<(int, int, int)> {
    let ll = s.len() as int;
    let jw: Seq<(int, int, int)> = match meta_range(s) {
        Some((a, _)) => match json_object_parse(meta_text(s)) {
            Err(f) => seq![(0, meta_fault_col(s, a, f.2), ll)],
            Ok(_) => Seq::empty(),
        },
        None => Seq::empty(),
    };
    jw + class_warns(s, '{', 1) + class_warns(s, '}', 2) + class_warns(s, '[', 3) + class_warns(
        s,
        ']',
        4,
    )
}

/// The warnings one character class raises: its escaped occurrences, but
/// only when the class raised no error.
pub open spec fn class_warns(s: Seq<char>, c: char, class: int) -> Seq<(int, int, int)> {
    if unescaped_in(name_region(s), c).len() == 0 {
        esc_desc(s, c, class)
    } else {
        Seq::empty()
    }
}

/// The warnings the name check for one character class raises: each
/// escaping backslash in the name region, spanning it and the character
/// it escapes.
pub open spec fn esc_desc(s: Seq<char>, c: char, class: int) -> Seq<(int, int, int)> {
    escaped_in(name_region(s), c).map_values(|i: int| (class, i + 1, i + 2))
}

/// An error of the header parse matches its descriptor: the given type,
/// with a context over the descriptor's columns of the header line.
pub open spec fn header_err_matches(
    e: Error,
    d: (ErrorType, int, int),
    text: Seq<char>,
    line: int,
    fname: Option<Seq<char>>,
) -> bool {
    &&& e.error_type == d.0
    &&& (match e.context {
        Some(c) => {
            &&& c.wf()
            &&& c.text() == text
            &&& c.spec_file_name() == fname
            &&& c.spec_start().line == line
            &&& c.spec_start().column == d.1
            &&& c.spec_end().line == line
            &&& c.spec_end().column == d.2
        },
        None => false,
    })
}

/// A warning of the header parse matches its descriptor: its kind is the
/// descriptor's class, and its context spans the descriptor's columns.
pub open spec fn header_warn_matches(
    w: Warning,
    d: (int, int, int),
    s: Seq<char>,
    text: Seq<char>,
    line: int,
    fname: Option<Seq<char>>,
) -> bool {
    &&& (match w.kind {
        WarningType::JsonError(m) => d.0 == 0 && m@ == meta_fault_msg(s),
        WarningType::EscapedOpenCurly => d.0 == 1,
        WarningType::EscapedCloseCurly => d.0 == 2,
        WarningType::EscapedOpenSquare => d.0 == 3,
        WarningType::EscapedCloseSquare => d.0 == 4,
        _ => false,
    })
    &&& (match w.context {
        Some(c) => {
            &&& c.wf()
            &&& c.text() == text
            &&& c.spec_file_name() == fname
            &&& c.spec_start().line == line
            &&& c.spec_start().column == d.1
            &&& c.spec_end().line == line
            &&& c.spec_end().column == d.2
        },
        None => false,
    })
    &&& w.referent is None
    &&& w.position == crate::positions::Position::StoryLevel
    &&& w.context_len is None
}

/// Errors match their descriptors one for one.
pub open spec fn header_errs_match_seq(
    v: Seq<Error>,
    d: Seq<(ErrorType, int, int)>,
    text: Seq<char>,
    line: int,
    fname: Option<Seq<char>>,
) -> bool {
    &&& v.len() == d.len()
    &&& forall|k: int|
        0 <= k < v.len() ==> header_err_matches(#[trigger] v[k], d[k], text, line, fname)
}

/// Warnings match their descriptors one for one.
pub open spec fn header_warns_match_seq(
    v: Seq<Warning>,
    d: Seq<(int, int, int)>,
    s: Seq<char>,
    text: Seq<char>,
    line: int,
    fname: Option<Seq<char>>,
) -> bool {
    &&& v.len() == d.len()
    &&& forall|k: int|
        0 <= k < v.len() ==> header_warn_matches(#[trigger] v[k], d[k], s, text, line, fname)
}

} // verus!

verus! {

/// Checks the name region for one character class: the escaping
/// backslashes if every occurrence is escaped, or the offset of the
/// first unescaped occurrence.
fn scan_name_region(region: &str, c: char) -> (r: Result<Vec<usize>, usize>)
    ensures
        (match r {
            Ok(v) => unescaped_in(region@, c).len() == 0 && v@.map_values(|x: usize| x as int)
                == escaped_in(region@, c),
            Err(i) => unescaped_in(region@, c).len() > 0 && i as int == unescaped_in(
                region@,
                c,
            )[0],
        }),
{
    let u = find_all_unescaped(region, c);
    if u.len() > 0 {
        proof {
            assert(u@.map_values(|x: usize| x as int)[0] == u@[0] as int);
        }
        Err(u[0])
    } else {
        proof {
            assert(unescaped_in(region@, c).len() == u@.map_values(|x: usize| x as int).len());
        }
        Ok(find_all_escaped(region, c))
    }
}

/// A passage header: its name, its tags, and its metadata.
#[derive(Debug)]
pub struct PassageHeader {
    /// The name of the passage; can be a Twine passage name or a special name
    pub name: String,

    /// The list of tags
    pub tags: Vec<String>,

    /// The metadata attached to the passage
    pub metadata: Metadata,
}

impl PassageHeader {
    /// Returns `true` if this header is tagged with `tag`.
    pub fn has_tag(&self, tag: &str) -> (r: bool)
        ensures
            r == self.tags@.map_values(|t: String| t@).contains(tag@),
    {
        let n = self.tags.len();
        let mut i: usize = 0;
        while i < n
            invariant
                i <= n,
                n == self.tags@.len(),
                forall|j: int| 0 <= j < i ==> (#[trigger] self.tags@[j])@ != tag@,
            decreases n - i,
        {
            proof {
                assert(self.tags@.map_values(|t: String| t@)[i as int] == self.tags@[i as int]@);
            }
            if str_eq(self.tags[i].as_str(), tag) {
                return true;
            }
            i += 1;
        }
        proof {
            let m = self.tags@.map_values(|t: String| t@);
            if m.contains(tag@) {
                let k = choose|k: int| 0 <= k < m.len() && #[trigger] m[k] == tag@;
                assert(m[k] == self.tags@[k]@);
                assert(false);
            }
        }
        false
    }
}

} // verus!


verus! {

/// The sigil stage's error descriptors.
pub open spec fn sig_desc(s: Seq<char>) -> Seq<(ErrorType, int, int)> {
    match sigil_error(s) {
        Some(e) => seq![(e, 1int, s.len() as int)],
        None => Seq::empty(),
    }
}

/// The metadata-before-tags error descriptor, when it is raised.
pub open spec fn mbt_desc(s: Seq<char>) -> Seq<(ErrorType, int, int)> {
    if meta_before_tags(s) {
        seq![(ErrorType::MetadataBeforeTags, meta_range(s)->Some_0.0 + 1, s.len() as int)]
    } else {
        Seq::empty()
    }
}

/// The unclosed-tag-block error descriptor, when it is raised.
pub open spec fn utb_desc(s: Seq<char>) -> Seq<(ErrorType, int, int)> {
    if tag_open(s) is Some && tag_close(s) is None {
        seq![(ErrorType::UnclosedTagBlock, tag_open(s)->Some_0 + 1, s.len() as int)]
    } else {
        Seq::empty()
    }
}

/// The empty-name error descriptor, when it is raised.
pub open spec fn en_desc(s: Seq<char>) -> Seq<(ErrorType, int, int)> {
    if name_of(s).len() == 0 {
        seq![(ErrorType::EmptyName, empty_name_col(s), s.len() as int)]
    } else {
        Seq::empty()
    }
}

/// The metadata JSON warning descriptor, when the block fails to parse.
pub open spec fn jw_desc(s: Seq<char>) -> Seq<(int, int, int)> {
    match meta_range(s) {
        Some((a, _)) => match json_object_parse(meta_text(s)) {
            Err(f) => seq![(0int, meta_fault_col(s, a, f.2), s.len() as int)],
            Ok(_) => Seq::empty(),
        },
        None => Seq::empty(),
    }
}

/// The context the header parse runs in: a well-formed span of exactly
/// one whole line, whose contents are `s`.
pub open spec fn header_line_ctx(context: FullContext, s: Seq<char>) -> bool {
    &&& context.wf()
    &&& context.spec_start().column == 1
    &&& context.spec_end().line == context.spec_start().line
    &&& context.spec_end().column as int == line_len_at(
        context.text(),
        context.spec_start().line as int - 1,
    )
    &&& s == context.spec_contents()
    &&& s.len() == line_len_at(context.text(), context.spec_start().line as int - 1)
    &&& s.len() <= context.text().len()
}

/// The guessed metadata block and the name's reach stay within the line.
pub proof fn lemma_name_end_bounds(s: Seq<char>)
    ensures
        0 <= name_end_pre(s) <= s.len(),
        0 <= name_end(s) <= name_end_pre(s),
        (match meta_range(s) {
            Some((a, b)) => 0 <= a < s.len() && 0 <= b <= s.len(),
            None => true,
        }),
        (match tag_open(s) {
            Some(p) => 0 <= p < name_end_pre(s),
            None => true,
        }),
        (match (tag_open(s), tag_close(s)) {
            (Some(p), Some(q)) => 0 <= q && p + 1 + q < name_end_pre(s),
            _ => true,
        }),
{
    lemma_unescaped_in(s, '{');
    lemma_unescaped_in(s, '}');
    let opens = unescaped_in(s, '{');
    let closes = unescaped_in(s, '}');
    if opens.len() > 0 {
        assert(unescaped_at(s, '{', opens[0]));
        assert(unescaped_at(s, '{', opens[opens.len() - 1]));
        if opens.len() > closes.len() && closes.len() > 0 {
            assert(unescaped_at(s, '{', opens[opens.len() - closes.len()]));
        }
        if closes.len() > 0 {
            assert(unescaped_at(s, '}', closes[closes.len() - 1]));
        }
    }
    let nep = name_end_pre(s);
    let prefix = s.subrange(0, nep);
    lemma_last_index_of(prefix, '[');
    match tag_open(s) {
        Some(p) => {
            lemma_last_index_of(s.subrange(p + 1, nep), ']');
        },
        None => {},
    }
}

/// Runs the metadata stage: raises the metadata-before-tags error and
/// the JSON warning as called for, and hands back the metadata and the
/// offset where the name's reach ends.
fn meta_stage(
    context: &FullContext,
    s: &str,
    errors: &mut Vec<Error>,
    warnings: &mut Vec<Warning>,
    Ghost(dprev): Ghost<Seq<(ErrorType, int, int)>>,
) -> (r: (Metadata, usize))
    requires
        header_line_ctx(*context, s@),
        header_errs_match_seq(
            old(errors)@,
            dprev,
            context.text(),
            context.spec_start().line as int,
            context.spec_file_name(),
        ),
        old(warnings)@ == Seq::<Warning>::empty(),
    ensures
        header_errs_match_seq(
            final(errors)@,
            dprev + mbt_desc(s@),
            context.text(),
            context.spec_start().line as int,
            context.spec_file_name(),
        ),
        header_warns_match_seq(
            final(warnings)@,
            jw_desc(s@),
            s@,
            context.text(),
            context.spec_start().line as int,
            context.spec_file_name(),
        ),
        r.0.spec_entries() == header_meta_entries(s@),
        r.1 as int == name_end_pre(s@),
{
    let ghost sq = s@;
    let ghost text = context.text();
    let ghost fname = context.spec_file_name();
    let line_no = context.get_start_position().line;
    let n = s.unicode_len();
    let opens = find_all_unescaped(s, '{');
    let closes = find_all_unescaped(s, '}');
    proof {
        lemma_unescaped_in(sq, '{');
        lemma_unescaped_in(sq, '}');
        lemma_name_end_bounds(sq);
        assert(forall|k: int|
            0 <= k < opens@.len() ==> opens@.map_values(|x: usize| x as int)[k] == (
            #[trigger] opens@[k]) as int);
        assert(forall|k: int|
            0 <= k < closes@.len() ==> closes@.map_values(|x: usize| x as int)[k] == (
            #[trigger] closes@[k]) as int);
    }
    let meta: Option<(usize, usize)> = if opens.len() == 0 {
        None
    } else if closes.len() == 0 {
        Some((opens[opens.len() - 1], n))
    } else if opens.len() > closes.len() {
        Some((opens[opens.len() - closes.len()], closes[closes.len() - 1] + 1))
    } else {
        Some((opens[0], closes[closes.len() - 1] + 1))
    };
    proof {
        match meta {
            Some(p) => {
                assert(meta_range(sq) == Some((p.0 as int, p.1 as int)));
            },
            None => {
                assert(meta_range(sq) is None);
            },
        }
    }
    let mut metadata = Metadata::defaults();
    let name_end_pre_x: usize = match meta {
        Some((a, _)) => a,
        None => n,
    };
    match meta {
        None => {
            proof {
                assert(dprev + mbt_desc(sq) =~= dprev);
                assert(metadata.spec_entries() == header_meta_entries(sq));
            }
        },
        Some((a, b)) => {
            let after = s.substring_char(b, n);
            proof {
                assert(after@ == sq.subrange(b as int, sq.len() as int));
            }
            match find_last_unescaped(after, '[') {
                Some(_) => {
                    let mctx = context.subcontext(
                        SubContextRange::starting_at(Position::abs(line_no, a + 1)),
                    );
                    errors.push(Error::new(ErrorType::MetadataBeforeTags, Some(mctx)));
                    proof {
                        assert(meta_before_tags(sq));
                        assert(dprev + mbt_desc(sq) =~= dprev.push(
                            (ErrorType::MetadataBeforeTags, a as int + 1, sq.len() as int),
                        ));
                    }
                },
                None => {
                    proof {
                        assert(!meta_before_tags(sq));
                        assert(dprev + mbt_desc(sq) =~= dprev);
                    }
                },
            }
            let mtext = if b < a {
                s.substring_char(a, a)
            } else {
                s.substring_char(a, b)
            };
            proof {
                if b < a {
                    assert(mtext@ =~= meta_text(sq));
                } else {
                    assert(mtext@ == meta_text(sq));
                }
            }
            match parse_json_object(mtext) {
                Ok(es) => {
                    let ghost pes = es@.map_values(
                        |e: (String, bool, String)| (e.0@, e.1, e.2@),
                    );
                    let m = es.len();
                    proof {
                        assert(pes.take(0) =~= Seq::<MetadataEntry>::empty());
                    }
                    let mut i: usize = 0;
                    while i < m
                        invariant
                            i <= m,
                            m == es@.len(),
                            pes == es@.map_values(
                                |e: (String, bool, String)| (e.0@, e.1, e.2@),
                            ),
                            metadata.spec_entries() == set_entries(
                                default_metadata_entries(),
                                pes.take(i as int),
                            ),
                        decreases m - i,
                    {
                        proof {
                            assert(pes[i as int] == (es@[i as int].0@, es@[i as int].1,
                            es@[i as int].2@));
                        }
                        let key = es[i].0.clone();
                        let isb = es[i].1;
                        let tv = es[i].2.clone();
                        metadata.set(key, MetadataValue { is_string: isb, text: tv });
                        proof {
                            assert(pes.take(i as int + 1) =~= pes.take(i as int).push(
                                pes[i as int],
                            ));
                            crate::json::lemma_set_entries_push(
                                default_metadata_entries(),
                                pes.take(i as int),
                                pes[i as int],
                            );
                        }
                        i += 1;
                    }
                    proof {
                        assert(pes.take(m as int) =~= pes);
                        assert(metadata.spec_entries() == header_meta_entries(sq));
                    }
                },
                Err(f) => {
                    let raw = a.saturating_add(f.column);
                    let c = if raw < 1 {
                        1
                    } else if raw > n {
                        n
                    } else {
                        raw
                    };
                    proof {
                        assert(c as int == meta_fault_col(sq, a as int, f.column as int));
                    }
                    let wctx = context.subcontext(
                        SubContextRange::starting_at(Position::abs(line_no, c)),
                    );
                    warnings.push(Warning::new(WarningType::JsonError(f.message), Some(wctx)));
                    proof {
                        assert(metadata.spec_entries() == header_meta_entries(sq));
                    }
                },
            }
        },
    }
    (metadata, name_end_pre_x)
}

/// Runs the tag stage: extracts the tags of a closed tag block, raises
/// the unclosed-tag-block error otherwise, and hands back where the name
/// now ends.
fn tags_stage(
    context: &FullContext,
    s: &str,
    nep: usize,
    errors: &mut Vec<Error>,
    Ghost(dprev): Ghost<Seq<(ErrorType, int, int)>>,
) -> (r: (Vec<String>, usize))
    requires
        header_line_ctx(*context, s@),
        nep as int == name_end_pre(s@),
        header_errs_match_seq(
            old(errors)@,
            dprev,
            context.text(),
            context.spec_start().line as int,
            context.spec_file_name(),
        ),
    ensures
        header_errs_match_seq(
            final(errors)@,
            dprev + utb_desc(s@),
            context.text(),
            context.spec_start().line as int,
            context.spec_file_name(),
        ),
        r.0@.map_values(|t: String| t@) == tags_of(s@),
        r.1 as int == name_end(s@),
{
    let ghost sq = s@;
    let line_no = context.get_start_position().line;
    proof {
        lemma_name_end_bounds(sq);
    }
    let mut tags: Vec<String> = Vec::new();
    let mut name_end_f: usize = nep;
    let pre = s.substring_char(0, nep);
    proof {
        assert(pre@ == sq.subrange(0, name_end_pre(sq)));
    }
    match find_last_unescaped(pre, '[') {
        None => {
            proof {
                assert(tag_open(sq) is None);
                assert(dprev + utb_desc(sq) =~= dprev);
                assert(tags@.map_values(|t: String| t@) =~= tags_of(sq));
            }
        },
        Some(p) => {
            proof {
                assert(tag_open(sq) == Some(p as int));
            }
            name_end_f = p;
            let block = s.substring_char(p + 1, nep);
            proof {
                assert(block@ == sq.subrange(p as int + 1, name_end_pre(sq)));
            }
            match find_last_unescaped(block, ']') {
                Some(q) => {
                    proof {
                        assert(tag_close(sq) == Some(q as int));
                    }
                    let inner = s.substring_char(p + 1, p + 1 + q);
                    tags = split_whitespace_str(inner);
                    proof {
                        assert(inner@ == sq.subrange(p as int + 1, p as int + 1 + q));
                        assert(tags@.map_values(|t: String| t@) == tags_of(sq));
                        assert(dprev + utb_desc(sq) =~= dprev);
                    }
                },
                None => {
                    proof {
                        assert(tag_close(sq) is None);
                    }
                    let uctx = context.subcontext(
                        SubContextRange::starting_at(Position::abs(line_no, p + 1)),
                    );
                    errors.push(Error::new(ErrorType::UnclosedTagBlock, Some(uctx)));
                    proof {
                        assert(dprev + utb_desc(sq) =~= dprev.push(
                            (ErrorType::UnclosedTagBlock, p as int + 1, sq.len() as int),
                        ));
                        assert(tags@.map_values(|t: String| t@) =~= tags_of(sq));
                    }
                },
            }
        },
    }
    (tags, name_end_f)
}

/// Runs the name check for one character class: the error of its first
/// unescaped occurrence, or a warning for each escaped one.
fn class_stage(
    context: &FullContext,
    region: &str,
    errors: &mut Vec<Error>,
    warnings: &mut Vec<Warning>,
    c: char,
    ek: ErrorType,
    wk: WarningType,
    Ghost(class): Ghost<int>,
    Ghost(sq): Ghost<Seq<char>>,
    Ghost(eprev): Ghost<Seq<(ErrorType, int, int)>>,
    Ghost(wprev): Ghost<Seq<(int, int, int)>>,
)
    requires
        header_line_ctx(*context, sq),
        region@ == name_region(sq),
        (match ek {
            ErrorType::UnescapedOpenCurly => c == '{' && class == 1 && wk
                == WarningType::EscapedOpenCurly,
            ErrorType::UnescapedCloseCurly => c == '}' && class == 2 && wk
                == WarningType::EscapedCloseCurly,
            ErrorType::UnescapedOpenSquare => c == '[' && class == 3 && wk
                == WarningType::EscapedOpenSquare,
            ErrorType::UnescapedCloseSquare => c == ']' && class == 4 && wk
                == WarningType::EscapedCloseSquare,
            _ => false,
        }),
        header_errs_match_seq(
            old(errors)@,
            eprev,
            context.text(),
            context.spec_start().line as int,
            context.spec_file_name(),
        ),
        header_warns_match_seq(
            old(warnings)@,
            wprev,
            sq,
            context.text(),
            context.spec_start().line as int,
            context.spec_file_name(),
        ),
    ensures
        header_errs_match_seq(
            final(errors)@,
            eprev + unesc_desc(sq, c, ek),
            context.text(),
            context.spec_start().line as int,
            context.spec_file_name(),
        ),
        header_warns_match_seq(
            final(warnings)@,
            wprev + class_warns(sq, c, class),
            sq,
            context.text(),
            context.spec_start().line as int,
            context.spec_file_name(),
        ),
{
    let ghost text = context.text();
    let ghost fname = context.spec_file_name();
    let line_no = context.get_start_position().line;
    proof {
        lemma_name_end_bounds(sq);
        lemma_unescaped_in(region@, c);
        lemma_escaped_in(region@, c);
        assert(region@.len() <= sq.len());
    }
    match scan_name_region(region, c) {
        Err(i) => {
            let ectx = context.subcontext(
                SubContextRange::between(
                    Position::abs(line_no, i + 1),
                    Position::abs(line_no, i + 1),
                ),
            );
            errors.push(Error::new(ek, Some(ectx)));
            proof {
                assert(eprev + unesc_desc(sq, c, ek) =~= eprev.push(
                    (ek, i as int + 1, i as int + 1),
                ));
                assert(wprev + class_warns(sq, c, class) =~= wprev);
            }
        },
        Ok(escaped) => {
            proof {
                assert(eprev + unesc_desc(sq, c, ek) =~= eprev);
                assert(class_warns(sq, c, class) == esc_desc(sq, c, class));
            }
            let ghost eidx = escaped_in(name_region(sq), c);
            let m = escaped.len();
            proof {
                assert(wprev + eidx.take(0).map_values(|i: int| (class, i + 1, i + 2))
                    =~= wprev);
            }
            let mut ei: usize = 0;
            while ei < m
                invariant
                    ei <= m,
                    m == escaped@.len(),
                    header_line_ctx(*context, sq),
                    text == context.text(),
                    fname == context.spec_file_name(),
                    line_no == context.spec_start().line,
                    escaped@.map_values(|x: usize| x as int) == eidx,
                    eidx == escaped_in(name_region(sq), c),
                    name_region(sq).len() <= sq.len(),
                    header_warns_match_seq(
                        warnings@,
                        wprev + eidx.take(ei as int).map_values(
                            |i: int| (class, i + 1, i + 2),
                        ),
                        sq,
                        text,
                        line_no as int,
                        fname,
                    ),
                    (match wk {
                        WarningType::EscapedOpenCurly => c == '{' && class == 1,
                        WarningType::EscapedCloseCurly => c == '}' && class == 2,
                        WarningType::EscapedOpenSquare => c == '[' && class == 3,
                        WarningType::EscapedCloseSquare => c == ']' && class == 4,
                        _ => false,
                    }),
                decreases m - ei,
            {
                proof {
                    lemma_escaped_in(name_region(sq), c);
                    assert(eidx[ei as int] == escaped@[ei as int] as int);
                }
                let idx = escaped[ei];
                let wctx = context.subcontext(
                    SubContextRange::between(
                        Position::abs(line_no, idx + 1),
                        Position::abs(line_no, idx + 2),
                    ),
                );
                let k2 = match &wk {
                    WarningType::EscapedOpenCurly => WarningType::EscapedOpenCurly,
                    WarningType::EscapedCloseCurly => WarningType::EscapedCloseCurly,
                    WarningType::EscapedOpenSquare => WarningType::EscapedOpenSquare,
                    _ => WarningType::EscapedCloseSquare,
                };
                warnings.push(Warning::new(k2, Some(wctx)));
                proof {
                    assert(eidx.take(ei as int + 1) =~= eidx.take(ei as int).push(
                        eidx[ei as int],
                    ));
                    assert(eidx.take(ei as int + 1).map_values(|i: int| (class, i + 1, i + 2))
                        =~= eidx.take(ei as int).map_values(|i: int| (class, i + 1, i + 2)).push(
                        (class, idx as int + 1, idx as int + 2),
                    ));
                    assert(wprev + eidx.take(ei as int + 1).map_values(
                        |i: int| (class, i + 1, i + 2),
                    ) =~= (wprev + eidx.take(ei as int).map_values(
                        |i: int| (class, i + 1, i + 2),
                    )).push((class, idx as int + 1, idx as int + 2)));
                }
                ei += 1;
            }
            proof {
                assert(eidx.take(m as int) =~= eidx);
            }
        },
    }
}

} // verus!

verus! {

impl PassageHeader {
    /// Parses a `PassageHeader` out of the given context, which must span
    /// exactly one whole line.  On success the header carries the name,
    /// tags and metadata the line spells, along with the warnings the
    /// line raised; on failure every error found on the line is reported
    /// together, in scan order, and the warnings are dropped.
    #[verifier::rlimit(100)]
    #[verifier::spinoff_prover]
    pub fn parse(context: FullContext) -> (out: Output<Result<PassageHeader, ErrorList>>)
        requires
            context.wf(),
            context.spec_start().column == 1,
            context.spec_end().line == context.spec_start().line,
            context.spec_end().column as int == line_len_at(
                context.text(),
                context.spec_start().line as int - 1,
            ),
        ensures
            ({
                let s = context.spec_contents();
                let text = context.text();
                let line = context.spec_start().line as int;
                let fname = context.spec_file_name();
                match out.spec_output() {
                    Ok(h) => {
                        &&& header_err_descs(s).len() == 0
                        &&& h.name@ == name_of(s)
                        &&& h.tags@.map_values(|t: String| t@) == tags_of(s)
                        &&& h.metadata.spec_entries() == header_meta_entries(s)
                        &&& header_warns_match_seq(
                            out.spec_warnings(),
                            header_warn_descs(s),
                            s,
                            text,
                            line,
                            fname,
                        )
                    },
                    Err(el) => {
                        &&& header_err_descs(s).len() > 0
                        &&& header_errs_match_seq(
                            el.errors@,
                            header_err_descs(s),
                            text,
                            line,
                            fname,
                        )
                        &&& out.spec_warnings() == Seq::<Warning>::empty()
                    },
                }
            }),
    {
        let ghost text = context.text();
        let ghost fname = context.spec_file_name();
        let line_no = context.get_start_position().line;
        let ghost lno = line_no as int;
        let s: &str = context.get_contents();
        let ghost sq = s@;
        let n = s.unicode_len();
        proof {
            crate::text::lemma_line_starts(text);
            crate::text::lemma_line_in_bounds(text, lno - 1);
            assert(sq.len() == line_len_at(text, lno - 1));
            assert(sq.len() <= text.len());
            assert(header_line_ctx(context, sq));
        }
        let mut errors: Vec<Error> = Vec::new();
        let mut warnings: Vec<Warning> = Vec::new();

        // Sigil check
        let sig_ok = n >= 2 && s.get_char(0) == ':' && s.get_char(1) == ':';
        if !sig_ok {
            let a = first_non_ws(s);
            proof {
                lemma_trim_start_at(sq, a as int);
            }
            let leading = a + 1 < n && s.get_char(a) == ':' && s.get_char(a + 1) == ':';
            let et = if leading {
                ErrorType::LeadingWhitespace
            } else {
                ErrorType::MissingSigil
            };
            errors.push(Error::new(et, Some(context.clone())));
        }
        proof {
            assert(header_errs_match_seq(errors@, sig_desc(sq), text, lno, fname));
        }

        // Metadata block
        let (metadata, nep) = meta_stage(
            &context,
            s,
            &mut errors,
            &mut warnings,
            Ghost(sig_desc(sq)),
        );

        // Tag block
        let (tags, nef) = tags_stage(
            &context,
            s,
            nep,
            &mut errors,
            Ghost(sig_desc(sq) + mbt_desc(sq)),
        );

        // Name checks, one character class at a time
        proof {
            lemma_name_end_bounds(sq);
        }
        let region = s.substring_char(0, nef);
        proof {
            assert(region@ == name_region(sq));
        }
        let ghost e0 = (sig_desc(sq) + mbt_desc(sq)) + utb_desc(sq);
        class_stage(
            &context,
            region,
            &mut errors,
            &mut warnings,
            '{',
            ErrorType::UnescapedOpenCurly,
            WarningType::EscapedOpenCurly,
            Ghost(1),
            Ghost(sq),
            Ghost(e0),
            Ghost(jw_desc(sq)),
        );
        class_stage(
            &context,
            region,
            &mut errors,
            &mut warnings,
            '}',
            ErrorType::UnescapedCloseCurly,
            WarningType::EscapedCloseCurly,
            Ghost(2),
            Ghost(sq),
            Ghost(e0 + unesc_desc(sq, '{', ErrorType::UnescapedOpenCurly)),
            Ghost(jw_desc(sq) + class_warns(sq, '{', 1)),
        );
        class_stage(
            &context,
            region,
            &mut errors,
            &mut warnings,
            '[',
            ErrorType::UnescapedOpenSquare,
            WarningType::EscapedOpenSquare,
            Ghost(3),
            Ghost(sq),
            Ghost(
                (e0 + unesc_desc(sq, '{', ErrorType::UnescapedOpenCurly)) + unesc_desc(
                    sq,
                    '}',
                    ErrorType::UnescapedCloseCurly,
                ),
            ),
            Ghost((jw_desc(sq) + class_warns(sq, '{', 1)) + class_warns(sq, '}', 2)),
        );
        class_stage(
            &context,
            region,
            &mut errors,
            &mut warnings,
            ']',
            ErrorType::UnescapedCloseSquare,
            WarningType::EscapedCloseSquare,
            Ghost(4),
            Ghost(sq),
            Ghost(
                ((e0 + unesc_desc(sq, '{', ErrorType::UnescapedOpenCurly)) + unesc_desc(
                    sq,
                    '}',
                    ErrorType::UnescapedCloseCurly,
                )) + unesc_desc(sq, '[', ErrorType::UnescapedOpenSquare),
            ),
            Ghost(
                ((jw_desc(sq) + class_warns(sq, '{', 1)) + class_warns(sq, '}', 2))
                    + class_warns(sq, '[', 3),
            ),
        );
        let ghost e4 = (((e0 + unesc_desc(sq, '{', ErrorType::UnescapedOpenCurly)) + unesc_desc(
            sq,
            '}',
            ErrorType::UnescapedCloseCurly,
        )) + unesc_desc(sq, '[', ErrorType::UnescapedOpenSquare)) + unesc_desc(
            sq,
            ']',
            ErrorType::UnescapedCloseSquare,
        );

        // The name and the empty-name check
        let name = if nef > 2 {
            remove_backslashes(trim_str(s.substring_char(2, nef)))
        } else {
            String::new()
        };
        proof {
            assert(name@ == name_of(sq));
        }
        if name.as_str().is_empty() {
            let c = if n + 1 < 3 {
                n + 1
            } else {
                3
            };
            let ectx = context.subcontext(
                SubContextRange::starting_at(Position::abs(line_no, c)),
            );
            errors.push(Error::new(ErrorType::EmptyName, Some(ectx)));
            proof {
                assert(e4 + en_desc(sq) =~= e4.push(
                    (ErrorType::EmptyName, empty_name_col(sq), sq.len() as int),
                ));
            }
        } else {
            proof {
                assert(e4 + en_desc(sq) =~= e4);
            }
        }
        proof {
            assert(header_err_descs(sq) == e4 + en_desc(sq));
            assert(header_errs_match_seq(errors@, header_err_descs(sq), text, lno, fname));
            assert(header_warn_descs(sq) == ((jw_desc(sq) + class_warns(sq, '{', 1))
                + class_warns(sq, '}', 2)) + class_warns(sq, '[', 3) + class_warns(sq, ']', 4));
        }
        if errors.is_empty() {
            Output::new(Ok(PassageHeader { name, tags, metadata })).with_warnings(warnings)
        } else {
            Output::new(Err(ErrorList { errors }))
        }
    }
}

} // verus!
