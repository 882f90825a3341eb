//! Story-level assembly: splitting a buffer into passages, accumulating
//! them, merging stories from several files, and whole-story checks.

use crate::code_map::CodeMap;
use crate::code_map::ContextErrorList;
use crate::contents::PassageContent;
use crate::contents::StoryData;
use crate::context::FullContext;
use crate::context::SubContextRange;
use crate::issues::ErrorList;
use crate::issues::ErrorType;
use crate::issues::errors_of;
use crate::issues::Warning;
use crate::issues::WarningType;
use crate::output::Output;
use crate::passage::Passage;
use crate::position::Position;
use crate::scan::first_non_ws;
use crate::scan::str_eq;
use crate::scan::trim_spec;
use crate::scan::trim_str;
use crate::text::line_len_at;
use crate::text::line_start;
use crate::text::num_lines;
use crate::twine::TwineContent;
use crate::twine::TwineLink;
use vstd::prelude::*;
use vstd::string::StrSliceExecFns;

verus! {

/// The first value stored under `name` in an association list, if any.
pub open spec fn assoc_lookup<T>(es: Seq<(Seq<char>, T)>, name: Seq<char>) -> Option<T>
    decreases es.len(),
{
    if es.len() == 0 {
        None
    } else if es[0].0 == name {
        Some(es[0].1)
    } else {
        assoc_lookup(es.subrange(1, es.len() as int), name)
    }
}

/// Whether an association list stores `name`.
pub open spec fn assoc_contains<T>(es: Seq<(Seq<char>, T)>, name: Seq<char>) -> bool {
    exists|k: int| 0 <= k < es.len() && (#[trigger] es[k]).0 == name
}

/// A map from passage names to values, in insertion order, with unique
/// names.
#[derive(Debug)]
pub struct PassageMap<T> {
    entries: Vec<(String, T)>,
}

impl<T> PassageMap<T> {
    /// The entries this map holds, in insertion order.
    pub closed spec fn spec_entries(&self) -> Seq<(Seq<char>, T)> {
        self.entries@.map_values(|e: (String, T)| (e.0@, e.1))
    }

    /// Whether the map stores `name`.
    pub open spec fn spec_contains(&self, name: Seq<char>) -> bool {
        assoc_contains(self.spec_entries(), name)
    }

    /// The map's names are unique.
    pub open spec fn wf(&self) -> bool {
        forall|k1: int, k2: int|
            0 <= k1 < k2 < self.spec_entries().len() ==> (#[trigger] self.spec_entries()[k1]).0 != (
            #[trigger] self.spec_entries()[k2]).0
    }

    /// Creates an empty map.
    pub fn new() -> (r: PassageMap<T>)
        ensures
            r.spec_entries() == Seq::<(Seq<char>, T)>::empty(),
            r.wf(),
    {
        let r = PassageMap { entries: Vec::new() };
        proof {
            assert(r.spec_entries() =~= Seq::<(Seq<char>, T)>::empty());
        }
        r
    }

    /// How many passages the map holds.
    pub fn len(&self) -> (r: usize)
        ensures
            r == self.spec_entries().len(),
    {
        self.entries.len()
    }

    /// Whether the map stores `name`.
    pub fn contains_key(&self, name: &str) -> (r: bool)
        ensures
            r == self.spec_contains(name@),
    {
        let n = self.entries.len();
        let mut i: usize = 0;
        while i < n
            invariant
                i <= n,
                n == self.entries@.len(),
                forall|j: int| 0 <= j < i ==> (#[trigger] self.entries@[j]).0@ != name@,
            decreases n - i,
        {
            if str_eq(self.entries[i].0.as_str(), name) {
                proof {
                    assert((self.spec_entries()[i as int]).0 == name@);
                }
                return true;
            }
            i += 1;
        }
        proof {
            if self.spec_contains(name@) {
                let k = choose|k: int|
                    0 <= k < self.spec_entries().len() && (#[trigger] self.spec_entries()[k]).0
                        == name@;
                assert((self.spec_entries()[k]).0 == self.entries@[k].0@);
                assert(false);
            }
        }
        false
    }

    /// Hands back the value stored under `name`, if any.
    pub fn get(&self, name: &str) -> (r: Option<&T>)
        ensures
            (match r {
                Some(v) => assoc_lookup(self.spec_entries(), name@) == Some(*v),
                None => assoc_lookup(self.spec_entries(), name@) is None,
            }),
    {
        let n = self.entries.len();
        proof {
            assert(self.spec_entries().subrange(0, n as int) =~= self.spec_entries());
        }
        let mut i: usize = 0;
        while i < n
            invariant
                i <= n,
                n == self.entries@.len(),
                assoc_lookup(self.spec_entries(), name@) == assoc_lookup(
                    self.spec_entries().subrange(i as int, n as int),
                    name@,
                ),
            decreases n - i,
        {
            proof {
                let tail = self.spec_entries().subrange(i as int, n as int);
                assert(tail[0] == self.spec_entries()[i as int]);
                assert(tail.subrange(1, tail.len() as int) =~= self.spec_entries().subrange(
                    i as int + 1,
                    n as int,
                ));
            }
            if str_eq(self.entries[i].0.as_str(), name) {
                return Some(&self.entries[i].1);
            }
            i += 1;
        }
        proof {
            assert(self.spec_entries().subrange(n as int, n as int) =~= Seq::<(
                Seq<char>,
                T,
            )>::empty());
        }
        None
    }

    /// Adds a passage under a name the map does not store yet.
    pub fn insert_new(&mut self, name: String, value: T)
        requires
            !old(self).spec_contains(name@),
        ensures
            final(self).spec_entries() == old(self).spec_entries().push((name@, value)),
            old(self).wf() ==> final(self).wf(),
    {
        let ghost orig = self.spec_entries();
        self.entries.push((name, value));
        proof {
            assert(self.spec_entries() =~= orig.push((name@, value)));
            if old(self).wf() {
                assert forall|k1: int, k2: int|
                    0 <= k1 < k2 < self.spec_entries().len() implies (
                #[trigger] self.spec_entries()[k1]).0 != (#[trigger] self.spec_entries()[k2]).0 by {
                    if k2 == orig.len() {
                        assert((self.spec_entries()[k1]).0 == (orig[k1]).0);
                    }
                }
            }
        }
    }

    /// The entry at insertion position `i`.
    pub fn entry_at(&self, i: usize) -> (r: &(String, T))
        requires
            i < self.spec_entries().len(),
        ensures
            (r.0@, r.1) == self.spec_entries()[i as int],
    {
        &self.entries[i]
    }

    /// Hands the map's entries over, in insertion order.
    pub fn into_entries(self) -> (v: Vec<(String, T)>)
        ensures
            v@.map_values(|e: (String, T)| (e.0@, e.1)) == self.spec_entries(),
    {
        self.entries
    }

    /// A mutable reference to the value at insertion position `i`.
    pub fn value_mut(&mut self, i: usize) -> (r: &mut T)
        requires
            i < old(self).spec_entries().len(),
        ensures
            *r == old(self).spec_entries()[i as int].1,
            final(self).spec_entries() == old(self).spec_entries().update(
                i as int,
                (old(self).spec_entries()[i as int].0, *final(r)),
            ),
    {
        let ghost orig = self.spec_entries();
        let e = vstd::std_specs::vec::vec_index_mut(&mut self.entries, i);
        proof {
            assert(orig[i as int] == (old(self).entries@[i as int].0@,
            old(self).entries@[i as int].1));
        }
        &mut e.1
    }
}

} // verus!

verus! {

/// A parsed Twee story that keeps the full [`Passage`] object of each
/// part: the `StoryTitle` and `StoryData` passages, the name-keyed map
/// of ordinary passages, the script and stylesheet passages, and the
/// code map of the files the story came from.
#[derive(Debug)]
pub struct StoryPassages {
    /// The `StoryTitle` passage, if one was found
    pub title: Option<Passage>,

    /// The `StoryData` passage, if one was found
    pub data: Option<Passage>,

    /// Map from passage name to passage for any non-special passages
    pub passages: PassageMap<Passage>,

    /// The passages tagged with `script`
    pub scripts: Vec<Passage>,

    /// The passages tagged with `stylesheet`
    pub stylesheets: Vec<Passage>,

    /// The code map for this story
    pub code_map: CodeMap,
}

/// The well-formed shape story assembly maintains: unique passage names,
/// and each slot holding its own kind of content.
pub open spec fn story_wf(sp: StoryPassages) -> bool {
    &&& sp.passages.wf()
    &&& (forall|k: int|
        0 <= k < sp.passages.spec_entries().len() ==> (#[trigger] sp.passages.spec_entries()[k]).1.content is Normal)
    &&& (match sp.title {
        Some(p) => p.content is StoryTitle,
        None => true,
    })
    &&& (match sp.data {
        Some(p) => p.content is StoryData,
        None => true,
    })
    &&& (forall|k: int| 0 <= k < sp.scripts@.len() ==> (#[trigger] sp.scripts@[k]).content is Script)
    &&& (forall|k: int|
        0 <= k < sp.stylesheets@.len() ==> (#[trigger] sp.stylesheets@[k]).content is Stylesheet)
}

/// A passage whose span lies on the given buffer: its context is well
/// formed, covers that buffer's text, and carries its file name.
pub open spec fn passage_on(p: Passage, text: Seq<char>, fname: Option<Seq<char>>) -> bool {
    &&& p.context.wf()
    &&& p.context.text() == text
    &&& p.context.spec_file_name() == fname
}

/// Every passage the story holds lies on the given buffer.
pub open spec fn story_on(sp: StoryPassages, text: Seq<char>, fname: Option<Seq<char>>) -> bool {
    &&& (match sp.title {
        Some(p) => passage_on(p, text, fname),
        None => true,
    })
    &&& (match sp.data {
        Some(p) => passage_on(p, text, fname),
        None => true,
    })
    &&& (forall|k: int|
        0 <= k < sp.passages.spec_entries().len() ==> passage_on(
            (#[trigger] sp.passages.spec_entries()[k]).1,
            text,
            fname,
        ))
    &&& (forall|k: int|
        0 <= k < sp.scripts@.len() ==> passage_on(#[trigger] sp.scripts@[k], text, fname))
    &&& (forall|k: int|
        0 <= k < sp.stylesheets@.len() ==> passage_on(#[trigger] sp.stylesheets@[k], text, fname))
}

/// The names the assembled story's slots carry: the title passage is
/// named `StoryTitle`, the data passage `StoryData`, and every map entry
/// is keyed by its own passage's name.
pub open spec fn story_named(sp: StoryPassages) -> bool {
    &&& (match sp.title {
        Some(p) => p.header.name@ == "StoryTitle"@,
        None => true,
    })
    &&& (match sp.data {
        Some(p) => p.header.name@ == "StoryData"@,
        None => true,
    })
    &&& (forall|k: int|
        0 <= k < sp.passages.spec_entries().len() ==> (#[trigger] sp.passages.spec_entries()[k]).0
            == sp.passages.spec_entries()[k].1.header.name@)
}

/// The start passage the story data names, if any.
pub open spec fn spec_start_setting(sp: StoryPassages) -> Option<String> {
    match sp.data {
        Some(p) => match p.content {
            PassageContent::StoryData(Some(d)) => d.start,
            _ => None,
        },
        None => None,
    }
}

/// The name of the passage a reader should begin at: the one the story
/// data names, else `Start` if such a passage exists.
pub open spec fn spec_start_name(sp: StoryPassages) -> Option<Seq<char>> {
    match spec_start_setting(sp) {
        Some(st) => Some(st@),
        None => if sp.passages.spec_contains("Start"@) {
            Some("Start"@)
        } else {
            None
        },
    }
}

/// The dead-link warnings of one passage's links, in scan order: one for
/// each link whose trimmed target names no passage.
pub open spec fn link_warns(links: Seq<TwineLink>, sp: StoryPassages) -> Seq<Warning>
    decreases links.len(),
{
    if links.len() == 0 {
        Seq::empty()
    } else {
        let head: Seq<Warning> = if sp.passages.spec_contains(trim_spec(links[0].target@)) {
            Seq::empty()
        } else {
            seq![
                Warning {
                    kind: WarningType::DeadLink(links[0].target),
                    context: Some(links[0].context),
                    referent: None,
                    position: crate::positions::Position::StoryLevel,
                    context_len: None,
                },
            ]
        };
        head + link_warns(links.subrange(1, links.len() as int), sp)
    }
}

/// The dead-link warnings of a run of passages, in map order.
pub open spec fn dead_link_warns(es: Seq<(Seq<char>, Passage)>, sp: StoryPassages) -> Seq<Warning>
    decreases es.len(),
{
    if es.len() == 0 {
        Seq::empty()
    } else {
        let head: Seq<Warning> = match es[0].1.content {
            PassageContent::Normal(tc) => link_warns(tc.links@, sp),
            _ => Seq::empty(),
        };
        head + dead_link_warns(es.subrange(1, es.len() as int), sp)
    }
}

/// A warning with the given kind and nothing else.
pub open spec fn bare_warn(kind: WarningType) -> Warning {
    Warning {
        kind,
        context: None,
        referent: None,
        position: crate::positions::Position::StoryLevel,
        context_len: None,
    }
}

/// Every warning the whole-story check raises, in order: a missing
/// title; missing story data; a start passage set in the story data that
/// no passage carries; no `Start` passage and no start setting; and a
/// dead link for every link whose trimmed target names no passage.
pub open spec fn check_warns(sp: StoryPassages) -> Seq<Warning> {
    let w1: Seq<Warning> = if sp.title is None {
        seq![bare_warn(WarningType::MissingStoryTitle)]
    } else {
        Seq::empty()
    };
    let w2: Seq<Warning> = if sp.data is None {
        seq![bare_warn(WarningType::MissingStoryData)]
    } else {
        Seq::empty()
    };
    let w3: Seq<Warning> = match (sp.data, spec_start_setting(sp)) {
        (Some(p), Some(st)) => if !sp.passages.spec_contains(st@) {
            seq![
                Warning {
                    kind: WarningType::DeadStartPassage(st),
                    context: Some(p.context),
                    referent: None,
                    position: crate::positions::Position::StoryLevel,
                    context_len: None,
                },
            ]
        } else {
            Seq::empty()
        },
        _ => Seq::empty(),
    };
    let w4: Seq<Warning> = if spec_start_setting(sp) is None && !sp.passages.spec_contains(
        "Start"@,
    ) {
        seq![bare_warn(WarningType::MissingStartPassage)]
    } else {
        Seq::empty()
    };
    w1 + w2 + w3 + w4 + dead_link_warns(sp.passages.spec_entries(), sp)
}

impl StoryPassages {
    /// If a start passage is configured in the StoryData, returns the
    /// name of that passage.  If none is configured, returns `Start` if
    /// a passage of that name exists, and nothing otherwise.
    pub fn get_start_passage_name(&self) -> (r: Option<&str>)
        ensures
            (match r {
                Some(s) => spec_start_name(*self) == Some(s@),
                None => spec_start_name(*self) is None,
            }),
    {
        match &self.data {
            Some(p) => match &p.content {
                PassageContent::StoryData(Some(d)) => match &d.start {
                    Some(st) => {
                        return Some(st.as_str());
                    },
                    None => {},
                },
                _ => {},
            },
            None => {},
        }
        if self.passages.contains_key("Start") {
            Some("Start")
        } else {
            None
        }
    }

    /// Performs the whole-story checks and returns their warnings: a
    /// missing title or story data, a dead or missing start passage, and
    /// every dead link.
    pub fn check(&self) -> (r: Vec<Warning>)
        ensures
            r@ == check_warns(*self),
    {
        let mut warnings: Vec<Warning> = Vec::new();
        if self.title.is_none() {
            warnings.push(Warning::new(WarningType::MissingStoryTitle, None));
        }
        if self.data.is_none() {
            warnings.push(Warning::new(WarningType::MissingStoryData, None));
        }
        let mut start_set = false;
        match &self.data {
            Some(p) => match &p.content {
                PassageContent::StoryData(Some(d)) => match &d.start {
                    Some(st) => {
                        start_set = true;
                        if !self.passages.contains_key(st.as_str()) {
                            warnings.push(
                                Warning::new(
                                    WarningType::DeadStartPassage(st.clone()),
                                    Some(p.context.clone()),
                                ),
                            );
                        }
                    },
                    None => {},
                },
                _ => {},
            },
            None => {},
        }
        if !start_set && !self.passages.contains_key("Start") {
            warnings.push(Warning::new(WarningType::MissingStartPassage, None));
        }
        proof {
            assert(warnings@ + dead_link_warns(self.passages.spec_entries(), *self)
                =~= check_warns(*self));
        }
        // Dead links, passage by passage, link by link
        let ghost sp = *self;
        let ghost es = self.passages.spec_entries();
        let n = self.passages.len();
        proof {
            assert(es.subrange(0, n as int) =~= es);
        }
        let mut i: usize = 0;
        while i < n
            invariant
                i <= n,
                n == self.passages.spec_entries().len(),
                sp == *self,
                es == self.passages.spec_entries(),
                warnings@ + dead_link_warns(es.subrange(i as int, n as int), sp) == check_warns(
                    sp,
                ),
            decreases n - i,
        {
            proof {
                let tail = es.subrange(i as int, n as int);
                assert(tail[0] == es[i as int]);
                assert(tail.subrange(1, tail.len() as int) =~= es.subrange(i as int + 1, n as int));
            }
            let entry = self.passages.entry_at(i);
            match &entry.1.content {
                PassageContent::Normal(tc) => {
                    let links = tc.get_links();
                    let m = links.len();
                    let ghost lks = tc.spec_links();
                    proof {
                        assert(lks.subrange(0, m as int) =~= lks);
                    }
                    let mut j: usize = 0;
                    while j < m
                        invariant
                            j <= m,
                            m == lks.len(),
                            sp == *self,
                            es == self.passages.spec_entries(),
                            i < es.len(),
                            es[i as int].1.content == PassageContent::Normal(
                                *tc,
                            ),
                            lks == tc.spec_links(),
                            links@ == lks,
                            warnings@ + link_warns(lks.subrange(j as int, m as int), sp)
                                + dead_link_warns(es.subrange(i as int + 1, es.len() as int), sp)
                                == check_warns(sp),
                        decreases m - j,
                    {
                        proof {
                            let ltail = lks.subrange(j as int, m as int);
                            assert(ltail[0] == lks[j as int]);
                            assert(ltail.subrange(1, ltail.len() as int) =~= lks.subrange(
                                j as int + 1,
                                m as int,
                            ));
                        }
                        let target_trimmed = trim_str(links[j].target.as_str());
                        if !self.passages.contains_key(target_trimmed) {
                            warnings.push(
                                Warning::new(
                                    WarningType::DeadLink(links[j].target.clone()),
                                    Some(links[j].context.clone()),
                                ),
                            );
                        }
                        j += 1;
                    }
                    proof {
                        assert(lks.subrange(m as int, m as int) =~= Seq::<TwineLink>::empty());
                    }
                },
                _ => {},
            }
            i += 1;
        }
        proof {
            assert(es.subrange(n as int, n as int) =~= Seq::<(Seq<char>, Passage)>::empty());
        }
        warnings
    }
}

} // verus!

verus! {

/// A passage with the pid of its Twine content set to `pid`; a passage
/// with any other kind of content is left alone.
pub open spec fn with_pid(p: Passage, pid: int) -> Passage {
    match p.content {
        PassageContent::Normal(tc) => Passage {
            header: p.header,
            content: PassageContent::Normal(
                TwineContent { content: tc.content, pid: pid as usize, links: tc.links },
            ),
            context: p.context,
        },
        _ => p,
    }
}

/// The map's entries with pids assigned densely from `start` on, in map
/// order.
pub open spec fn renumbered_entries(es: Seq<(Seq<char>, Passage)>, start: int) -> Seq<
    (Seq<char>, Passage),
> {
    es.map(|k: int, e: (Seq<char>, Passage)| (e.0, with_pid(e.1, start + k)))
}

/// Folding the entries of `b` into `a`: an entry whose name `a` already
/// holds is dropped, the rest are appended in order.
pub open spec fn merged_entries(a: Seq<(Seq<char>, Passage)>, b: Seq<(Seq<char>, Passage)>) -> Seq<
    (Seq<char>, Passage),
>
    decreases b.len(),
{
    if b.len() == 0 {
        a
    } else {
        merged_entries(
            if assoc_contains(a, b[0].0) {
                a
            } else {
                a.push(b[0])
            },
            b.subrange(1, b.len() as int),
        )
    }
}

/// The entries of `b` whose names `a` already holds, in order.
pub open spec fn dup_entries(a: Seq<(Seq<char>, Passage)>, b: Seq<(Seq<char>, Passage)>) -> Seq<
    (Seq<char>, Passage),
>
    decreases b.len(),
{
    if b.len() == 0 {
        Seq::empty()
    } else {
        let head: Seq<(Seq<char>, Passage)> = if assoc_contains(a, b[0].0) {
            seq![b[0]]
        } else {
            Seq::empty()
        };
        head + dup_entries(a, b.subrange(1, b.len() as int))
    }
}

/// A duplicate-passage warning matches its entry: it names the passage,
/// points at the incoming passage, and refers back to the kept one.
pub open spec fn dup_warn_matches(
    w: Warning,
    e: (Seq<char>, Passage),
    a: Seq<(Seq<char>, Passage)>,
) -> bool {
    &&& (match w.kind {
        WarningType::DuplicatePassage(nm) => nm@ == e.0,
        _ => false,
    })
    &&& w.context == Some(e.1.context)
    &&& (match assoc_lookup(a, e.0) {
        Some(kept) => w.referent == Some(kept.context),
        None => false,
    })
    &&& w.position == crate::positions::Position::StoryLevel
    &&& w.context_len is None
}

/// The duplicate-title warning a merge raises, when both sides carry a
/// title.
pub open spec fn dup_title_warns(a: StoryPassages, b: StoryPassages) -> Seq<Warning> {
    match (a.title, b.title) {
        (Some(at), Some(bt)) => seq![
            Warning {
                kind: WarningType::DuplicateStoryTitle,
                context: Some(bt.context),
                referent: Some(at.context),
                position: crate::positions::Position::StoryLevel,
                context_len: None,
            },
        ],
        _ => Seq::empty(),
    }
}

/// The duplicate-story-data warning a merge raises, when both sides
/// carry story data.
pub open spec fn dup_data_warns(a: StoryPassages, b: StoryPassages) -> Seq<Warning> {
    match (a.data, b.data) {
        (Some(ad), Some(bd)) => seq![
            Warning {
                kind: WarningType::DuplicateStoryData,
                context: Some(bd.context),
                referent: Some(ad.context),
                position: crate::positions::Position::StoryLevel,
                context_len: None,
            },
        ],
        _ => Seq::empty(),
    }
}

/// Looking a name up after appending an entry: a name the list already
/// holds keeps its value; a fresh entry's name finds the new value.
pub proof fn lemma_assoc_push<T>(a: Seq<(Seq<char>, T)>, e: (Seq<char>, T), name: Seq<char>)
    ensures
        assoc_contains(a.push(e), name) == (assoc_contains(a, name) || e.0 == name),
        assoc_contains(a, name) ==> assoc_lookup(a.push(e), name) == assoc_lookup(a, name),
    decreases a.len(),
{
    if a.len() == 0 {
        assert(a.push(e)[0] == e);
        if assoc_contains(a, name) {
            assert(false);
        }
        if e.0 == name {
            assert(a.push(e)[0].0 == name);
        }
        if assoc_contains(a.push(e), name) {
            let k = choose|k: int|
                0 <= k < a.push(e).len() && (#[trigger] a.push(e)[k]).0 == name;
            assert(k == 0);
        }
    } else {
        let t = a.subrange(1, a.len() as int);
        lemma_assoc_push(t, e, name);
        assert(t.push(e) =~= a.push(e).subrange(1, a.push(e).len() as int));
        assert(a.push(e)[0] == a[0]);
        if a[0].0 == name {
            assert(assoc_contains(a, name));
            assert(assoc_contains(a.push(e), name));
        } else {
            assert(assoc_contains(a, name) == assoc_contains(t, name)) by {
                if assoc_contains(a, name) {
                    let k = choose|k: int| 0 <= k < a.len() && (#[trigger] a[k]).0 == name;
                    assert(t[k - 1].0 == name);
                }
                if assoc_contains(t, name) {
                    let k = choose|k: int| 0 <= k < t.len() && (#[trigger] t[k]).0 == name;
                    assert(a[k + 1].0 == name);
                }
            }
            assert(assoc_contains(a.push(e), name) == assoc_contains(t.push(e), name)) by {
                if assoc_contains(a.push(e), name) {
                    let k = choose|k: int|
                        0 <= k < a.push(e).len() && (#[trigger] a.push(e)[k]).0 == name;
                    assert(t.push(e)[k - 1].0 == name);
                }
                if assoc_contains(t.push(e), name) {
                    let k = choose|k: int|
                        0 <= k < t.push(e).len() && (#[trigger] t.push(e)[k]).0 == name;
                    assert(a.push(e)[k + 1].0 == name);
                }
            }
        }
    }
}

/// A name the list holds always finds a value.
pub proof fn lemma_assoc_contains_lookup<T>(es: Seq<(Seq<char>, T)>, name: Seq<char>)
    ensures
        assoc_contains(es, name) <==> assoc_lookup(es, name) is Some,
    decreases es.len(),
{
    if es.len() > 0 && es[0].0 != name {
        let t = es.subrange(1, es.len() as int);
        lemma_assoc_contains_lookup(t, name);
        if assoc_contains(es, name) {
            let k = choose|k: int| 0 <= k < es.len() && (#[trigger] es[k]).0 == name;
            assert(t[k - 1].0 == name);
        }
        if assoc_contains(t, name) {
            let k = choose|k: int| 0 <= k < t.len() && (#[trigger] t[k]).0 == name;
            assert(es[k + 1].0 == name);
        }
    }
}

/// Splitting the last entry off a duplicate scan.
pub proof fn lemma_dup_entries_snoc(
    a: Seq<(Seq<char>, Passage)>,
    es: Seq<(Seq<char>, Passage)>,
    e: (Seq<char>, Passage),
)
    ensures
        dup_entries(a, es.push(e)) == dup_entries(a, es) + (if assoc_contains(a, e.0) {
            seq![e]
        } else {
            Seq::<(Seq<char>, Passage)>::empty()
        }),
    decreases es.len(),
{
    let tailpart: Seq<(Seq<char>, Passage)> = if assoc_contains(a, e.0) {
        seq![e]
    } else {
        Seq::empty()
    };
    if es.len() == 0 {
        assert(es.push(e)[0] == e);
        assert(es.push(e).subrange(1, 1) =~= Seq::<(Seq<char>, Passage)>::empty());
        assert(dup_entries(a, es.push(e)) == tailpart + dup_entries(
            a,
            es.push(e).subrange(1, 1),
        ));
        assert(dup_entries(a, Seq::<(Seq<char>, Passage)>::empty()) =~= Seq::<(
            Seq<char>,
            Passage,
        )>::empty());
        assert(tailpart + Seq::<(Seq<char>, Passage)>::empty() =~= tailpart);
        assert(dup_entries(a, es) + tailpart =~= tailpart);
    } else {
        assert(es.push(e)[0] == es[0]);
        assert(es.push(e).subrange(1, es.len() as int + 1) =~= es.subrange(
            1,
            es.len() as int,
        ).push(e));
        lemma_dup_entries_snoc(a, es.subrange(1, es.len() as int), e);
        let h: Seq<(Seq<char>, Passage)> = if assoc_contains(a, es[0].0) {
            seq![es[0]]
        } else {
            Seq::empty()
        };
        assert(dup_entries(a, es.push(e)) == h + (dup_entries(a, es.subrange(1, es.len() as int))
            + tailpart));
        assert(h + (dup_entries(a, es.subrange(1, es.len() as int)) + tailpart) =~= (h
            + dup_entries(a, es.subrange(1, es.len() as int))) + tailpart);
    }
}

impl StoryPassages {
    /// Renumbers the pids of the map's passages, starting at `start` and
    /// counting up in map order.
    pub(crate) fn renumber_pids(&mut self, start: usize)
        requires
            start + old(self).passages.spec_entries().len() <= usize::MAX,
        ensures
            final(self).passages.spec_entries() == renumbered_entries(
                old(self).passages.spec_entries(),
                start as int,
            ),
            final(self).title == old(self).title,
            final(self).data == old(self).data,
            final(self).scripts == old(self).scripts,
            final(self).stylesheets == old(self).stylesheets,
            final(self).code_map == old(self).code_map,
    {
        let ghost orig = self.passages.spec_entries();
        let n = self.passages.len();
        let mut pid = start;
        let mut i: usize = 0;
        while i < n
            invariant
                i <= n,
                n == self.passages.spec_entries().len(),
                n == orig.len(),
                start + n <= usize::MAX,
                pid == start + i,
                self.title == old(self).title,
                self.data == old(self).data,
                self.scripts == old(self).scripts,
                self.stylesheets == old(self).stylesheets,
                self.code_map == old(self).code_map,
                forall|k: int| i <= k < n ==> self.passages.spec_entries()[k] == orig[k],
                forall|k: int|
                    0 <= k < i ==> self.passages.spec_entries()[k] == (orig[k].0, with_pid(
                        orig[k].1,
                        start + k,
                    )),
            decreases n - i,
        {
            let p = self.passages.value_mut(i);
            match &mut p.content {
                PassageContent::Normal(tc) => {
                    tc.pid = pid;
                },
                _ => {},
            }
            pid += 1;
            i += 1;
        }
        proof {
            assert(self.passages.spec_entries() =~= renumbered_entries(orig, start as int));
        }
    }

    /// Merges the given `StoryPassages` into this one: the incoming
    /// passages are renumbered past this story's, a title or story data
    /// this story already has stays and the incoming one raises a
    /// duplicate warning referring back to the kept one, incoming
    /// passages with names this story knows are dropped with duplicate
    /// warnings in the same way, and scripts and stylesheets are
    /// appended.
    #[verifier::rlimit(100)]
    #[verifier::spinoff_prover]
    pub fn merge_from(&mut self, other: StoryPassages) -> (r: Vec<Warning>)
        requires
            old(self).passages.spec_entries().len() + 1 + other.passages.spec_entries().len()
                <= usize::MAX,
            old(self).passages.wf(),
            other.passages.wf(),
        ensures
            ({
                let a = old(self).passages.spec_entries();
                let b = renumbered_entries(other.passages.spec_entries(), a.len() as int + 1);
                let wtd = dup_title_warns(*old(self), other) + dup_data_warns(*old(self), other);
                &&& final(self).title == (if old(self).title is None {
                    other.title
                } else {
                    old(self).title
                })
                &&& final(self).data == (if old(self).data is None {
                    other.data
                } else {
                    old(self).data
                })
                &&& final(self).passages.spec_entries() == merged_entries(a, b)
                &&& final(self).passages.wf()
                &&& final(self).scripts@ == old(self).scripts@ + other.scripts@
                &&& final(self).stylesheets@ == old(self).stylesheets@ + other.stylesheets@
                &&& r@.len() == wtd.len() + dup_entries(a, b).len()
                &&& r@.subrange(0, wtd.len() as int) == wtd
                &&& (forall|k: int|
                    0 <= k < dup_entries(a, b).len() ==> dup_warn_matches(
                        r@[wtd.len() + k],
                        #[trigger] dup_entries(a, b)[k],
                        a,
                    ))
                &&& (forall|k: int|
                    #[trigger] old(self).code_map.spec_names().dom().contains(k)
                        ==> final(self).code_map.spec_names().dom().contains(k)
                        && final(self).code_map.spec_names()[k]
                        == old(self).code_map.spec_names()[k])
                &&& final(self).code_map.spec_contexts().len()
                    >= old(self).code_map.spec_contexts().len()
                &&& (forall|i: int|
                    0 <= i < old(self).code_map.spec_contexts().len()
                        ==> (#[trigger] final(self).code_map.spec_contexts()[i])
                        == old(self).code_map.spec_contexts()[i])
            }),
    {
        let ghost aold = self.passages.spec_entries();
        let mut warnings: Vec<Warning> = Vec::new();
        let mut incoming = other;
        let base = self.passages.len();
        incoming.renumber_pids(base + 1);
        let ghost b = renumbered_entries(other.passages.spec_entries(), base as int + 1);
        let StoryPassages {
            title: otitle,
            data: odata,
            passages: opassages,
            scripts: mut oscripts,
            stylesheets: mut ostylesheets,
            code_map: ocode,
        } = incoming;

        // Fold the code maps together
        let start_ids = self.code_map.len();
        let mut cm = ocode;
        cm.renumber_file_ids(start_ids);
        self.code_map.absorb(cm);

        // Title: keep the first, warn about the second
        match otitle {
            Some(ot) => {
                let mut keep = false;
                match &self.title {
                    Some(st) => {
                        let warning = Warning::new(
                            WarningType::DuplicateStoryTitle,
                            Some(ot.context.clone()),
                        ).with_referent(st.context.clone());
                        warnings.push(warning);
                        keep = true;
                    },
                    None => {},
                }
                if !keep {
                    self.title = Some(ot);
                }
            },
            None => {},
        }
        // Story data: the same
        match odata {
            Some(od) => {
                let mut keep = false;
                match &self.data {
                    Some(sd) => {
                        let warning = Warning::new(
                            WarningType::DuplicateStoryData,
                            Some(od.context.clone()),
                        ).with_referent(sd.context.clone());
                        warnings.push(warning);
                        keep = true;
                    },
                    None => {},
                }
                if !keep {
                    self.data = Some(od);
                }
            },
            None => {},
        }
        let ghost wtd = dup_title_warns(*old(self), other) + dup_data_warns(*old(self), other);
        proof {
            assert(warnings@ =~= wtd);
            assert(warnings@.subrange(0, wtd.len() as int) =~= wtd);
        }

        // Passages: drop duplicates with warnings, append the rest
        let mut bvec = opassages.into_entries();
        let n = bvec.len();
        proof {
            assert(forall|k: int|
                0 <= k < b.len() ==> (#[trigger] b[k]).0
                    == other.passages.spec_entries()[k].0);
            assert(forall|k1: int, k2: int|
                0 <= k1 < k2 < b.len() ==> (#[trigger] b[k1]).0 != (#[trigger] b[k2]).0);
            assert(bvec@.map_values(|e: (String, Passage)| (e.0@, e.1)) =~= b.subrange(
                0,
                n as int,
            ));
            assert(b.take(0) =~= Seq::<(Seq<char>, Passage)>::empty());
            assert(dup_entries(aold, b.take(0)) =~= Seq::<(Seq<char>, Passage)>::empty());
        }
        let mut i: usize = 0;
        while i < n
            invariant
                i <= n,
                n == b.len(),
                i + bvec@.len() == n,
                bvec@.map_values(|e: (String, Passage)| (e.0@, e.1)) == b.subrange(
                    i as int,
                    n as int,
                ),
                aold == old(self).passages.spec_entries(),
                b == renumbered_entries(
                    other.passages.spec_entries(),
                    aold.len() as int + 1,
                ),
                wtd == dup_title_warns(*old(self), other) + dup_data_warns(*old(self), other),
                forall|k1: int, k2: int|
                    0 <= k1 < k2 < b.len() ==> (#[trigger] b[k1]).0 != (#[trigger] b[k2]).0,
                self.passages.wf(),
                merged_entries(aold, b) == merged_entries(
                    self.passages.spec_entries(),
                    b.subrange(i as int, n as int),
                ),
                forall|k: int|
                    i <= k < n ==> assoc_contains(
                        self.passages.spec_entries(),
                        (#[trigger] b[k]).0,
                    ) == assoc_contains(aold, b[k].0),
                forall|k: int|
                    i <= k < n && assoc_contains(aold, (#[trigger] b[k]).0) ==> assoc_lookup(
                        self.passages.spec_entries(),
                        b[k].0,
                    ) == assoc_lookup(aold, b[k].0),
                self.title == (if old(self).title is None {
                    other.title
                } else {
                    old(self).title
                }),
                self.data == (if old(self).data is None {
                    other.data
                } else {
                    old(self).data
                }),
                self.scripts == old(self).scripts,
                self.stylesheets == old(self).stylesheets,
                warnings@.len() == wtd.len() + dup_entries(aold, b.take(i as int)).len(),
                warnings@.subrange(0, wtd.len() as int) == wtd,
                forall|k: int|
                    0 <= k < dup_entries(aold, b.take(i as int)).len() ==> dup_warn_matches(
                        warnings@[wtd.len() + k],
                        #[trigger] dup_entries(aold, b.take(i as int))[k],
                        aold,
                    ),
                forall|k: int|
                    #[trigger] old(self).code_map.spec_names().dom().contains(k)
                        ==> self.code_map.spec_names().dom().contains(k)
                        && self.code_map.spec_names()[k] == old(self).code_map.spec_names()[k],
                self.code_map.spec_contexts().len() >= old(self).code_map.spec_contexts().len(),
                forall|i2: int|
                    0 <= i2 < old(self).code_map.spec_contexts().len()
                        ==> (#[trigger] self.code_map.spec_contexts()[i2])
                        == old(self).code_map.spec_contexts()[i2],
            decreases n - i,
        {
            proof {
                assert(bvec@.map_values(|e: (String, Passage)| (e.0@, e.1))[0] == (bvec@[0].0@,
                bvec@[0].1));
                assert(b.subrange(i as int, n as int)[0] == b[i as int]);
            }
            let ghost bv0 = bvec@;
            let (name, p) = bvec.remove(0);
            let ghost e = b[i as int];
            let ghost cur = self.passages.spec_entries();
            proof {
                assert((name@, p) == e);
                assert(bvec@ =~= bv0.subrange(1, bv0.len() as int));
                assert(bvec@.map_values(|x: (String, Passage)| (x.0@, x.1)) =~= bv0.map_values(
                    |x: (String, Passage)| (x.0@, x.1),
                ).subrange(1, bv0.len() as int));
                assert(bvec@.map_values(|x: (String, Passage)| (x.0@, x.1)) =~= b.subrange(
                    i as int + 1,
                    n as int,
                ));
                assert(b.subrange(i as int, n as int).subrange(
                    1,
                    b.subrange(i as int, n as int).len() as int,
                ) =~= b.subrange(i as int + 1, n as int));
                assert(b.take(i as int + 1) =~= b.take(i as int).push(e));
                lemma_dup_entries_snoc(aold, b.take(i as int), e);
            }
            if self.passages.contains_key(name.as_str()) {
                let kept_ctx = match self.passages.get(name.as_str()) {
                    Some(kp) => kp.context.clone(),
                    None => {
                        proof {
                            lemma_assoc_contains_lookup(self.passages.spec_entries(), name@);
                        }
                        unreached()
                    },
                };
                let w = Warning::new(
                    WarningType::DuplicatePassage(name),
                    Some(p.context.clone()),
                ).with_referent(kept_ctx);
                warnings.push(w);
                proof {
                    assert(assoc_contains(aold, e.0));
                    assert(dup_entries(aold, b.take(i as int + 1)) =~= dup_entries(
                        aold,
                        b.take(i as int),
                    ).push(e));
                    assert(warnings@.subrange(0, wtd.len() as int) =~= wtd);
                }
            } else {
                self.passages.insert_new(name, p);
                proof {
                    assert(!assoc_contains(aold, e.0));
                    assert(dup_entries(aold, b.take(i as int + 1)) =~= dup_entries(
                        aold,
                        b.take(i as int),
                    ));
                    assert(self.passages.spec_entries() == cur.push(e));
                    assert forall|k: int|
                        i + 1 <= k < n implies assoc_contains(
                        self.passages.spec_entries(),
                        (#[trigger] b[k]).0,
                    ) == assoc_contains(aold, b[k].0) by {
                        lemma_assoc_push(cur, e, b[k].0);
                    }
                    assert forall|k: int|
                        i + 1 <= k < n && assoc_contains(aold, (#[trigger] b[k]).0) implies
                        assoc_lookup(self.passages.spec_entries(), b[k].0) == assoc_lookup(
                        aold,
                        b[k].0,
                    ) by {
                        lemma_assoc_push(cur, e, b[k].0);
                    }
                }
            }
            i += 1;
        }
        proof {
            assert(b.take(n as int) =~= b);
            assert(b.subrange(n as int, n as int) =~= Seq::<(Seq<char>, Passage)>::empty());
        }
        // Scripts and stylesheets accumulate freely
        self.scripts.append(&mut oscripts);
        self.stylesheets.append(&mut ostylesheets);
        warnings
    }
}

} // verus!

verus! {

/// Whether the one-indexed line `l` of the buffer opens a passage: its
/// text, after leading whitespace, begins with the `::` sigil.
pub open spec fn is_header_line(text: Seq<char>, l: int) -> bool {
    crate::header::has_sigil(
        crate::scan::trim_start_spec(crate::twine::line_of(text, l)),
    )
}

impl StoryPassages {
    /// Whether line `l` opens a passage.
    fn header_line(context: &FullContext, l: usize) -> (r: bool)
        requires
            context.wf(),
            1 <= l,
            l as int <= num_lines(context.text()),
        ensures
            r == is_header_line(context.text(), l as int),
    {
        let lt = context.line_text(l);
        let n = lt.unicode_len();
        let a = first_non_ws(lt);
        proof {
            crate::text::lemma_line_starts(context.text());
            crate::text::lemma_line_in_bounds(context.text(), l as int - 1);
            assert(lt@.len() <= context.text().len());
            crate::scan::lemma_trim_start_at(lt@, a as int);
        }
        a + 1 < n && lt.get_char(a) == ':' && lt.get_char(a + 1) == ':'
    }

    /// Splits the context's whole-line span into passages — one per run
    /// from a header line to just before the next — parses each, and
    /// accumulates them: the first `StoryTitle` and `StoryData` are
    /// kept, later ones and repeated passage names raise duplicate
    /// warnings referring back to the kept one, scripts and stylesheets
    /// append, and the errors of every failed passage are reported
    /// together, in document order, while the warnings of every passage
    /// are still accumulated.
    #[verifier::rlimit(100)]
    #[verifier::spinoff_prover]
    pub fn parse(context: FullContext) -> (out: Output<Result<StoryPassages, ContextErrorList>>)
        requires
            context.wf(),
            context.spec_start().column == 1,
            context.spec_end().column as int == line_len_at(
                context.text(),
                context.spec_end().line as int - 1,
            ),
        ensures
            ({
                let text = context.text();
                let fname = context.spec_file_name();
                let sl = context.spec_start().line as int;
                let el = context.spec_end().line as int;
                let starts = span_starts_from(text, sl, el);
                let n = starts.len() as int;
                match out.spec_output() {
                    Ok(sp) => {
                        &&& story_wf(sp)
                        &&& story_named(sp)
                        &&& story_on(sp, text, fname)
                        &&& sp.code_map.ctxs_wf()
                        &&& story_err_descs(text, starts, el, 0, n).len() == 0
                        &&& assemble_match(
                            text,
                            fname,
                            starts,
                            el,
                            0,
                            n,
                            empty_assembly(),
                            AssemblyState {
                                title: sp.title,
                                data: sp.data,
                                passages: sp.passages.spec_entries(),
                                scripts: sp.scripts@,
                                stylesheets: sp.stylesheets@,
                            },
                            out.spec_warnings(),
                        )
                    },
                    Err(e) => {
                        &&& story_err_descs(text, starts, el, 0, n).len() > 0
                        &&& story_errs_match(
                            e.error_list.errors@,
                            story_err_descs(text, starts, el, 0, n),
                            text,
                            fname,
                        )
                        &&& exists|fin: AssemblyState|
                            #[trigger] assemble_match(
                                text,
                                fname,
                                starts,
                                el,
                                0,
                                n,
                                empty_assembly(),
                                fin,
                                out.spec_warnings(),
                            )
                    },
                }
            }),
    {
        let ghost text = context.text();
        let ghost fname = context.spec_file_name();
        let sl = context.get_start_position().line;
        let el = context.get_end_position().line;
        let ghost starts = span_starts_from(text, sl as int, el as int);
        proof {
            crate::text::lemma_span_lines_ordered(
                text,
                sl as int,
                context.spec_start().column as int,
                el as int,
                context.spec_end().column as int,
            );
            crate::text::lemma_line_starts(text);
            lemma_span_starts(text, sl as int, el as int);
        }
        let mut title: Option<Passage> = None;
        let mut data: Option<Passage> = None;
        let mut passages: PassageMap<Passage> = PassageMap::new();
        let mut scripts: Vec<Passage> = Vec::new();
        let mut stylesheets: Vec<Passage> = Vec::new();
        let mut warnings: Vec<Warning> = Vec::new();
        let mut errors_acc: Result<(), ErrorList> = Ok(());
        let mut cur = sl;
        let ghost mut k: int = 0;
        loop
            invariant_except_break
                0 <= k < starts.len(),
                cur as int == starts[k],
                sl <= cur <= el,
            invariant
                context.wf(),
                text == context.text(),
                sl == context.spec_start().line,
                el == context.spec_end().line,
                context.spec_start().column == 1,
                context.spec_end().column as int == line_len_at(text, el as int - 1),
                sl <= el,
                el as int <= num_lines(text),
                fname == context.spec_file_name(),
                starts == span_starts_from(text, sl as int, el as int),
                k <= starts.len(),
                (match errors_acc {
                    Err(e) => e.errors@.len() > 0,
                    Ok(_) => true,
                }),
                assemble_match(
                    text,
                    fname,
                    starts,
                    el as int,
                    0,
                    k,
                    empty_assembly(),
                    AssemblyState {
                        title: title,
                        data: data,
                        passages: passages.spec_entries(),
                        scripts: scripts@,
                        stylesheets: stylesheets@,
                    },
                    warnings@,
                ),
                story_errs_match(
                    errors_of(errors_acc),
                    story_err_descs(text, starts, el as int, 0, k),
                    text,
                    fname,
                ),
            ensures
                k == starts.len(),
            decreases el - cur,
        {
            let (span_last, found) = Self::find_span_end(&context, cur, el);
            proof {
                crate::text::lemma_line_starts(text);
                if (cur as int) < span_last as int {
                    assert(line_start(text, cur as int - 1) < line_start(
                        text,
                        span_last as int - 1,
                    ));
                }
            }
            let ell = context.line_len(span_last);
            let span = context.subcontext(
                SubContextRange::between(Position::abs(cur, 1), Position::abs(span_last, ell)),
            );
            let pout = Passage::parse(span);
            Self::accumulate_span(
                &mut title,
                &mut data,
                &mut passages,
                &mut scripts,
                &mut stylesheets,
                &mut warnings,
                &mut errors_acc,
                pout,
                Ghost(text),
                Ghost(fname),
                Ghost(starts),
                Ghost(el as int),
                Ghost(k),
            );
            proof {
                k = k + 1;
            }
            if found {
                proof {
                    lemma_span_starts(text, sl as int, el as int);
                    assert(next_header(text, starts[k - 1], el as int) <= el as int);
                    if k - 1 == starts.len() - 1 {
                        assert(next_header(text, starts[k - 1], el as int) == el as int + 1);
                        assert(false);
                    }
                    assert(starts[k] == next_header(text, starts[k - 1], el as int));
                }
                cur = span_last + 1;
            } else {
                proof {
                    lemma_span_starts(text, sl as int, el as int);
                    assert(next_header(text, starts[k - 1], el as int) == el as int + 1);
                    if k < starts.len() {
                        assert(starts[k] == next_header(text, starts[k - 1], el as int));
                        assert(starts[k] <= el as int);
                        assert(false);
                    }
                }
                break ;
            }
        }
        let mut code_map = CodeMap::new();
        code_map.add(context);
        proof {
            assert(code_map.ctxs_wf());
        }
        let ghost fin = AssemblyState {
            title: title,
            data: data,
            passages: passages.spec_entries(),
            scripts: scripts@,
            stylesheets: stylesheets@,
        };
        proof {
            lemma_assemble_shape(
                text,
                fname,
                starts,
                el as int,
                0,
                starts.len() as int,
                empty_assembly(),
                fin,
                warnings@,
            );
        }
        let out = match errors_acc {
            Ok(_) => {
                let story = StoryPassages { title, data, passages, scripts, stylesheets, code_map };
                proof {
                    assert(story_wf(story));
                    assert(story_named(story));
                    assert(story_on(story, text, fname));
                }
                Output::new(Ok(story))
            },
            Err(e) => Output::new(Err(ContextErrorList { error_list: e, code_map })),
        };
        out.with_warnings(warnings)
    }

    /// Parses a story from the given context and assigns dense passage
    /// ids starting at 1: the passage at map position `k` gets pid
    /// `1 + k`, so pids are unique and dense.  Apart from the pids, the
    /// story is exactly what assembling the context's spans yields.
    pub fn from_context(context: FullContext) -> (out: Output<
        Result<StoryPassages, ContextErrorList>,
    >)
        requires
            context.wf(),
            context.spec_start().column == 1,
            context.spec_end().column as int == line_len_at(
                context.text(),
                context.spec_end().line as int - 1,
            ),
        ensures
            ({
                let text = context.text();
                let fname = context.spec_file_name();
                let sl = context.spec_start().line as int;
                let el = context.spec_end().line as int;
                let starts = span_starts_from(text, sl, el);
                let n = starts.len() as int;
                match out.spec_output() {
                    Ok(sp) => {
                        &&& story_wf(sp)
                        &&& story_named(sp)
                        &&& story_on(sp, text, fname)
                        &&& sp.code_map.ctxs_wf()
                        &&& story_err_descs(text, starts, el, 0, n).len() == 0
                        &&& (sp.passages.spec_entries().len() < usize::MAX ==> (forall|k: int|
                            0 <= k < sp.passages.spec_entries().len()
                                ==> (match (#[trigger] sp.passages.spec_entries()[k]).1.content {
                                PassageContent::Normal(tc) => tc.pid == 1 + k,
                                _ => true,
                            })))
                        &&& exists|sp0: AssemblyState|
                            {
                                &&& #[trigger] assemble_match(
                                    text,
                                    fname,
                                    starts,
                                    el,
                                    0,
                                    n,
                                    empty_assembly(),
                                    sp0,
                                    out.spec_warnings(),
                                )
                                &&& sp.title == sp0.title
                                &&& sp.data == sp0.data
                                &&& sp.scripts@ == sp0.scripts
                                &&& sp.stylesheets@ == sp0.stylesheets
                                &&& (if sp0.passages.len() < usize::MAX {
                                    sp.passages.spec_entries() == renumbered_entries(
                                        sp0.passages,
                                        1,
                                    )
                                } else {
                                    sp.passages.spec_entries() == sp0.passages
                                })
                            }
                    },
                    Err(e) => {
                        &&& story_err_descs(text, starts, el, 0, n).len() > 0
                        &&& story_errs_match(
                            e.error_list.errors@,
                            story_err_descs(text, starts, el, 0, n),
                            text,
                            fname,
                        )
                        &&& exists|fin: AssemblyState|
                            #[trigger] assemble_match(
                                text,
                                fname,
                                starts,
                                el,
                                0,
                                n,
                                empty_assembly(),
                                fin,
                                out.spec_warnings(),
                            )
                    },
                }
            }),
    {
        let ghost text = context.text();
        let ghost fname = context.spec_file_name();
        let ghost starts = span_starts_from(
            text,
            context.spec_start().line as int,
            context.spec_end().line as int,
        );
        let ghost gel = context.spec_end().line as int;
        let out = StoryPassages::parse(context);
        let (res, w) = out.take();
        match res {
            Ok(mut sp) => {
                let ghost sp0 = AssemblyState {
                    title: sp.title,
                    data: sp.data,
                    passages: sp.passages.spec_entries(),
                    scripts: sp.scripts@,
                    stylesheets: sp.stylesheets@,
                };
                let n = sp.passages.len();
                if n < usize::MAX {
                    let ghost before = sp;
                    sp.renumber_pids(1);
                    proof {
                        assert forall|k: int|
                            0 <= k < sp.passages.spec_entries().len() implies (match (
                        #[trigger] sp.passages.spec_entries()[k]).1.content {
                            PassageContent::Normal(tc) => tc.pid == 1 + k,
                            _ => true,
                        }) by {
                            assert(sp.passages.spec_entries()[k] == (
                            before.passages.spec_entries()[k].0, with_pid(
                                before.passages.spec_entries()[k].1,
                                1 + k,
                            )));
                        }
                        assert forall|k1: int, k2: int|
                            0 <= k1 < k2 < sp.passages.spec_entries().len() implies (
                        #[trigger] sp.passages.spec_entries()[k1]).0 != (
                        #[trigger] sp.passages.spec_entries()[k2]).0 by {
                            assert(sp.passages.spec_entries()[k1].0
                                == before.passages.spec_entries()[k1].0);
                            assert(sp.passages.spec_entries()[k2].0
                                == before.passages.spec_entries()[k2].0);
                        }
                        assert forall|k: int|
                            0 <= k < sp.passages.spec_entries().len() implies passage_on(
                            (#[trigger] sp.passages.spec_entries()[k]).1,
                            text,
                            fname,
                        ) && (sp.passages.spec_entries()[k]).0
                            == sp.passages.spec_entries()[k].1.header.name@ && (
                        #[trigger] sp.passages.spec_entries()[k]).1.content is Normal by {
                            assert(sp.passages.spec_entries()[k] == (
                            before.passages.spec_entries()[k].0, with_pid(
                                before.passages.spec_entries()[k].1,
                                1 + k,
                            )));
                        }
                        assert(assemble_match(
                            text,
                            fname,
                            starts,
                            gel,
                            0,
                            starts.len() as int,
                            empty_assembly(),
                            sp0,
                            w@,
                        ));
                    }
                    Output::new(Ok(sp)).with_warnings(w)
                } else {
                    proof {
                        assert(assemble_match(
                            text,
                            fname,
                            starts,
                            gel,
                            0,
                            starts.len() as int,
                            empty_assembly(),
                            sp0,
                            w@,
                        ));
                    }
                    Output::new(Ok(sp)).with_warnings(w)
                }
            },
            Err(e) => Output::new(Err(e)).with_warnings(w),
        }
    }

    /// Parses a story from an input string, with dense passage ids;
    /// apart from the pids, the story is exactly what assembling the
    /// input's spans yields.
    pub fn from_string(input: String) -> (out: Output<Result<StoryPassages, ContextErrorList>>)
        requires
            input@.len() < usize::MAX,
        ensures
            ({
                let text = input@;
                let el = num_lines(text);
                let starts = span_starts_from(text, 1, el);
                let n = starts.len() as int;
                match out.spec_output() {
                    Ok(sp) => {
                        &&& story_wf(sp)
                        &&& story_named(sp)
                        &&& story_on(sp, text, None)
                        &&& sp.code_map.ctxs_wf()
                        &&& story_err_descs(text, starts, el, 0, n).len() == 0
                        &&& (sp.passages.spec_entries().len() < usize::MAX ==> (forall|k: int|
                            0 <= k < sp.passages.spec_entries().len()
                                ==> (match (#[trigger] sp.passages.spec_entries()[k]).1.content {
                                PassageContent::Normal(tc) => tc.pid == 1 + k,
                                _ => true,
                            })))
                        &&& exists|sp0: AssemblyState|
                            {
                                &&& #[trigger] assemble_match(
                                    text,
                                    None,
                                    starts,
                                    el,
                                    0,
                                    n,
                                    empty_assembly(),
                                    sp0,
                                    out.spec_warnings(),
                                )
                                &&& sp.title == sp0.title
                                &&& sp.data == sp0.data
                                &&& sp.scripts@ == sp0.scripts
                                &&& sp.stylesheets@ == sp0.stylesheets
                                &&& (if sp0.passages.len() < usize::MAX {
                                    sp.passages.spec_entries() == renumbered_entries(
                                        sp0.passages,
                                        1,
                                    )
                                } else {
                                    sp.passages.spec_entries() == sp0.passages
                                })
                            }
                    },
                    Err(e) => {
                        &&& story_err_descs(text, starts, el, 0, n).len() > 0
                        &&& story_errs_match(
                            e.error_list.errors@,
                            story_err_descs(text, starts, el, 0, n),
                            text,
                            None,
                        )
                        &&& exists|fin: AssemblyState|
                            #[trigger] assemble_match(
                                text,
                                None,
                                starts,
                                el,
                                0,
                                n,
                                empty_assembly(),
                                fin,
                                out.spec_warnings(),
                            )
                    },
                }
            }),
    {
        let context = FullContext::from(None, input);
        StoryPassages::from_context(context)
    }
}

} // verus!

verus! {

/// An ordinary passage of a [`Story`], with its Twine content at hand
/// without going through the content union.
#[derive(Debug)]
pub struct TwinePassage {
    /// The header
    pub header: crate::header::PassageHeader,

    /// The content
    pub content: TwineContent,
}

impl TwinePassage {
    /// Returns a reference to the metadata contained by the `header` field.
    pub fn metadata(&self) -> (r: &crate::json::Metadata)
        ensures
            r == self.header.metadata,
    {
        &self.header.metadata
    }

    /// Returns a reference to the list of tags contained by the `header` field.
    pub fn tags(&self) -> (r: &Vec<String>)
        ensures
            r == self.header.tags,
    {
        &self.header.tags
    }
}

/// A parsed Twee story, flattened: the title and story data pulled out
/// of their passages, ordinary passages with their Twine content at
/// hand, and scripts and stylesheets as plain text.
#[derive(Debug)]
pub struct Story {
    /// The story title
    pub title: Option<String>,

    /// The story data
    pub data: Option<StoryData>,

    /// Map from passage name to passage for any non-special passages
    pub passages: PassageMap<TwinePassage>,

    /// The contents of any passages tagged with `script`
    pub scripts: Vec<String>,

    /// The contents of any passages tagged with `stylesheet`
    pub stylesheets: Vec<String>,

    /// The code map for this story
    pub code_map: CodeMap,
}

/// The start-passage name of a flattened story: the one its data names,
/// else `Start` if such a passage exists.
pub open spec fn spec_story_start_name(s: Story) -> Option<Seq<char>> {
    match s.data {
        Some(d) => match d.start {
            Some(st) => Some(st@),
            None => if s.passages.spec_contains("Start"@) {
                Some("Start"@)
            } else {
                None
            },
        },
        None => if s.passages.spec_contains("Start"@) {
            Some("Start"@)
        } else {
            None
        },
    }
}

impl Story {
    /// Parses a `Story` from an input string: the flattening of exactly
    /// the story that assembling the input's spans yields, or the
    /// collected errors, along with every warning raised.
    pub fn from_string(input: String) -> (out: Output<Result<Story, ContextErrorList>>)
        requires
            input@.len() < usize::MAX,
        ensures
            ({
                let text = input@;
                let el = num_lines(text);
                let starts = span_starts_from(text, 1, el);
                let n = starts.len() as int;
                match out.spec_output() {
                    Ok(st) => {
                        &&& story_err_descs(text, starts, el, 0, n).len() == 0
                        &&& exists|sp: StoryPassages|
                            {
                                &&& #[trigger] story_flatten_post(sp, st)
                                &&& story_wf(sp)
                                &&& story_named(sp)
                                &&& story_on(sp, text, None)
                                &&& exists|sp0: AssemblyState|
                                    {
                                        &&& #[trigger] assemble_match(
                                            text,
                                            None,
                                            starts,
                                            el,
                                            0,
                                            n,
                                            empty_assembly(),
                                            sp0,
                                            out.spec_warnings(),
                                        )
                                        &&& sp.title == sp0.title
                                        &&& sp.data == sp0.data
                                        &&& sp.scripts@ == sp0.scripts
                                        &&& sp.stylesheets@ == sp0.stylesheets
                                        &&& (if sp0.passages.len() < usize::MAX {
                                            sp.passages.spec_entries() == renumbered_entries(
                                                sp0.passages,
                                                1,
                                            )
                                        } else {
                                            sp.passages.spec_entries() == sp0.passages
                                        })
                                    }
                            }
                    },
                    Err(e) => {
                        &&& story_err_descs(text, starts, el, 0, n).len() > 0
                        &&& story_errs_match(
                            e.error_list.errors@,
                            story_err_descs(text, starts, el, 0, n),
                            text,
                            None,
                        )
                        &&& exists|fin: AssemblyState|
                            #[trigger] assemble_match(
                                text,
                                None,
                                starts,
                                el,
                                0,
                                n,
                                empty_assembly(),
                                fin,
                                out.spec_warnings(),
                            )
                    },
                }
            }),
    {
        let out = StoryPassages::from_string(input);
        let (res, w) = out.take();
        match res {
            Ok(sp) => {
                let ghost gsp = sp;
                let st = Story::from(sp);
                proof {
                    assert(story_flatten_post(gsp, st));
                }
                Output::new(Ok(st)).with_warnings(w)
            },
            Err(e) => Output::new(Err(e)).with_warnings(w),
        }
    }

    /// If a start passage is configured in the StoryData, returns its
    /// name; else `Start` if such a passage exists; else nothing.
    pub fn get_start_passage_name(&self) -> (r: Option<&str>)
        ensures
            (match r {
                Some(s) => spec_story_start_name(*self) == Some(s@),
                None => spec_story_start_name(*self) is None,
            }),
    {
        match &self.data {
            Some(d) => match &d.start {
                Some(st) => {
                    return Some(st.as_str());
                },
                None => {},
            },
            None => {},
        }
        if self.passages.contains_key("Start") {
            Some("Start")
        } else {
            None
        }
    }
}

/// Everything flattening a `StoryPassages` into a [`Story`] promises:
/// the title passage's text becomes the title, the data passage's data
/// becomes the data, script and stylesheet texts are kept in order, and
/// under unique names the passage map flattens entry for entry.
pub open spec fn story_flatten_post(sp: StoryPassages, r: Story) -> bool {
    &&& (match (sp.title, r.title) {
        (Some(p), Some(t)) => (match p.content {
            PassageContent::StoryTitle(st) => t == st.title,
            _ => false,
        }),
        (Some(p), None) => !(p.content is StoryTitle),
        (None, None) => true,
        _ => false,
    })
    &&& (match (sp.data, r.data) {
        (Some(p), rd) => (match p.content {
            PassageContent::StoryData(d) => rd == d,
            _ => rd is None,
        }),
        (None, None) => true,
        _ => false,
    })
    &&& r.scripts@.map_values(|t: String| t@) == script_texts(sp.scripts@)
    &&& r.stylesheets@.map_values(|t: String| t@) == stylesheet_texts(sp.stylesheets@)
    &&& r.passages.wf()
    &&& (sp.passages.wf() ==> r.passages.spec_entries() == twine_entries(
        sp.passages.spec_entries(),
    ))
    &&& r.code_map == sp.code_map
}

impl core::convert::From<StoryPassages> for Story {
    /// Flattens a `StoryPassages`: the title passage's text becomes the
    /// title, the story-data passage's data becomes the data, each
    /// ordinary passage keeps its name, and script and stylesheet
    /// passages keep their text.  A slot holding an unexpected kind of
    /// content is dropped; a well-formed story loses nothing.
    fn from(sp: StoryPassages) -> (r: Story)
        ensures
            story_flatten_post(sp, r),
    {
        let StoryPassages { title, data, passages, scripts, stylesheets, code_map } = sp;
        let title = match title {
            Some(p) => match p.content {
                PassageContent::StoryTitle(t) => Some(t.title),
                _ => None,
            },
            None => None,
        };
        let data = match data {
            Some(p) => match p.content {
                PassageContent::StoryData(d) => d,
                _ => None,
            },
            None => None,
        };
        let mut out_scripts: Vec<String> = Vec::new();
        let mut sv = scripts;
        let ghost sorig = sv@;
        let n = sv.len();
        proof {
            assert(sorig.subrange(0, n as int) =~= sorig);
            assert(out_scripts@.map_values(|t: String| t@) + script_texts(sorig)
                =~= script_texts(sorig));
        }
        let mut i: usize = 0;
        while i < n
            invariant
                i <= n,
                n == sorig.len(),
                i + sv@.len() == n,
                sv@ == sorig.subrange(i as int, n as int),
                out_scripts@.map_values(|t: String| t@) + script_texts(
                    sorig.subrange(i as int, n as int),
                ) == script_texts(sorig),
            decreases n - i,
        {
            let ghost sv0 = sv@;
            let p = sv.remove(0);
            proof {
                assert(sv@ =~= sorig.subrange(i as int + 1, n as int));
                assert(sorig.subrange(i as int, n as int)[0] == sorig[i as int]);
                assert(sorig.subrange(i as int, n as int).subrange(
                    1,
                    sorig.subrange(i as int, n as int).len() as int,
                ) =~= sorig.subrange(i as int + 1, n as int));
            }
            let ghost before = out_scripts@;
            match p.content {
                PassageContent::Script(sc) => {
                    out_scripts.push(sc.content);
                    proof {
                        assert(out_scripts@.map_values(|t: String| t@) =~= before.map_values(
                            |t: String| t@,
                        ).push(sorig[i as int].content->Script_0.content@));
                        assert(before.map_values(|t: String| t@).push(
                            sorig[i as int].content->Script_0.content@,
                        ) + script_texts(sorig.subrange(i as int + 1, n as int))
                            =~= before.map_values(|t: String| t@) + (seq![
                            sorig[i as int].content->Script_0.content@,
                        ] + script_texts(sorig.subrange(i as int + 1, n as int))));
                    }
                },
                _ => {},
            }
            i += 1;
        }
        proof {
            assert(sorig.subrange(n as int, n as int) =~= Seq::<Passage>::empty());
            assert(out_scripts@.map_values(|t: String| t@) + Seq::<Seq<char>>::empty()
                =~= out_scripts@.map_values(|t: String| t@));
        }
        let mut out_stylesheets: Vec<String> = Vec::new();
        let mut tv = stylesheets;
        let ghost torig = tv@;
        let m = tv.len();
        proof {
            assert(torig.subrange(0, m as int) =~= torig);
            assert(out_stylesheets@.map_values(|t: String| t@) + stylesheet_texts(torig)
                =~= stylesheet_texts(torig));
        }
        let mut j: usize = 0;
        while j < m
            invariant
                j <= m,
                m == torig.len(),
                j + tv@.len() == m,
                tv@ == torig.subrange(j as int, m as int),
                out_stylesheets@.map_values(|t: String| t@) + stylesheet_texts(
                    torig.subrange(j as int, m as int),
                ) == stylesheet_texts(torig),
            decreases m - j,
        {
            let p = tv.remove(0);
            proof {
                assert(tv@ =~= torig.subrange(j as int + 1, m as int));
                assert(torig.subrange(j as int, m as int)[0] == torig[j as int]);
                assert(torig.subrange(j as int, m as int).subrange(
                    1,
                    torig.subrange(j as int, m as int).len() as int,
                ) =~= torig.subrange(j as int + 1, m as int));
            }
            let ghost before = out_stylesheets@;
            match p.content {
                PassageContent::Stylesheet(st) => {
                    out_stylesheets.push(st.content);
                    proof {
                        assert(out_stylesheets@.map_values(|t: String| t@) =~= before.map_values(
                            |t: String| t@,
                        ).push(torig[j as int].content->Stylesheet_0.content@));
                        assert(before.map_values(|t: String| t@).push(
                            torig[j as int].content->Stylesheet_0.content@,
                        ) + stylesheet_texts(torig.subrange(j as int + 1, m as int))
                            =~= before.map_values(|t: String| t@) + (seq![
                            torig[j as int].content->Stylesheet_0.content@,
                        ] + stylesheet_texts(torig.subrange(j as int + 1, m as int))));
                    }
                },
                _ => {},
            }
            j += 1;
        }
        proof {
            assert(torig.subrange(m as int, m as int) =~= Seq::<Passage>::empty());
            assert(out_stylesheets@.map_values(|t: String| t@) + Seq::<Seq<char>>::empty()
                =~= out_stylesheets@.map_values(|t: String| t@));
        }
        let mut out_passages: PassageMap<TwinePassage> = PassageMap::new();
        let ghost porig = passages.spec_entries();
        let ghost punique = passages.wf();
        let mut pv = passages.into_entries();
        let pn = pv.len();
        proof {
            assert(pv@.map_values(|e: (String, Passage)| (e.0@, e.1)) =~= porig.subrange(
                0,
                pn as int,
            ));
            assert(out_passages.spec_entries() + twine_entries(porig) =~= twine_entries(porig));
        }
        let mut k: usize = 0;
        while k < pn
            invariant
                k <= pn,
                pn == porig.len(),
                k + pv@.len() == pn,
                punique == (forall|k1: int, k2: int|
                    0 <= k1 < k2 < porig.len() ==> (#[trigger] porig[k1]).0 != (
                    #[trigger] porig[k2]).0),
                pv@.map_values(|e: (String, Passage)| (e.0@, e.1)) == porig.subrange(
                    k as int,
                    pn as int,
                ),
                out_passages.wf(),
                forall|w: int|
                    0 <= w < out_passages.spec_entries().len() ==> exists|j2: int|
                        0 <= j2 < k && (#[trigger] out_passages.spec_entries()[w]).0
                            == porig[j2].0,
                punique ==> out_passages.spec_entries() + twine_entries(
                    porig.subrange(k as int, pn as int),
                ) == twine_entries(porig),
            decreases pn - k,
        {
            proof {
                assert(pv@.map_values(|e: (String, Passage)| (e.0@, e.1))[0] == (pv@[0].0@,
                pv@[0].1));
                assert(porig.subrange(k as int, pn as int)[0] == porig[k as int]);
            }
            let ghost pv0 = pv@;
            let (name, p) = pv.remove(0);
            proof {
                assert(pv@ =~= pv0.subrange(1, pv0.len() as int));
                assert(pv@.map_values(|e: (String, Passage)| (e.0@, e.1)) =~= pv0.map_values(
                    |e: (String, Passage)| (e.0@, e.1),
                ).subrange(1, pv0.len() as int));
                assert(pv@.map_values(|e: (String, Passage)| (e.0@, e.1)) =~= porig.subrange(
                    k as int + 1,
                    pn as int,
                ));
                assert(porig.subrange(k as int, pn as int).subrange(
                    1,
                    porig.subrange(k as int, pn as int).len() as int,
                ) =~= porig.subrange(k as int + 1, pn as int));
            }
            let ghost before = out_passages.spec_entries();
            match p.content {
                PassageContent::Normal(tc) => {
                    if !out_passages.contains_key(name.as_str()) {
                        let tp = TwinePassage { header: p.header, content: tc };
                        out_passages.insert_new(name, tp);
                        proof {
                            if punique {
                                assert(out_passages.spec_entries() =~= before.push(
                                    (porig[k as int].0, TwinePassage {
                                        header: porig[k as int].1.header,
                                        content: porig[k as int].1.content->Normal_0,
                                    }),
                                ));
                                assert(before.push(
                                    (porig[k as int].0, TwinePassage {
                                        header: porig[k as int].1.header,
                                        content: porig[k as int].1.content->Normal_0,
                                    }),
                                ) + twine_entries(porig.subrange(k as int + 1, pn as int))
                                    =~= before + twine_entries(
                                    porig.subrange(k as int, pn as int),
                                ));
                            }
                        }
                    } else {
                        proof {
                            if punique {
                                let w = choose|w: int|
                                    0 <= w < before.len() && (#[trigger] before[w]).0
                                        == name@;
                                let j2 = choose|j2: int|
                                    0 <= j2 < k && (#[trigger] before[w]).0 == porig[j2].0;
                                assert(porig[j2].0 == porig[k as int].0);
                                assert(false);
                            }
                        }
                    }
                },
                _ => {},
            }
            k += 1;
        }
        proof {
            assert(porig.subrange(pn as int, pn as int) =~= Seq::<(Seq<char>, Passage)>::empty());
            if punique {
                assert(out_passages.spec_entries() + Seq::<(Seq<char>, TwinePassage)>::empty()
                    =~= out_passages.spec_entries());
            }
        }
        Story {
            title,
            data,
            passages: out_passages,
            scripts: out_scripts,
            stylesheets: out_stylesheets,
            code_map,
        }
    }
}

impl vstd::std_specs::convert::FromSpecImpl<StoryPassages> for Story {
    open spec fn obeys_from_spec() -> bool {
        false
    }

    open spec fn from_spec(sp: StoryPassages) -> Story {
        arbitrary()
    }
}

} // verus!

verus! {

/// The texts of the script passages of a run, in order.
pub open spec fn script_texts(ps: Seq<Passage>) -> Seq<Seq<char>>
    decreases ps.len(),
{
    if ps.len() == 0 {
        Seq::empty()
    } else {
        let head: Seq<Seq<char>> = match ps[0].content {
            PassageContent::Script(sc) => seq![sc.content@],
            _ => Seq::empty(),
        };
        head + script_texts(ps.subrange(1, ps.len() as int))
    }
}

/// The texts of the stylesheet passages of a run, in order.
pub open spec fn stylesheet_texts(ps: Seq<Passage>) -> Seq<Seq<char>>
    decreases ps.len(),
{
    if ps.len() == 0 {
        Seq::empty()
    } else {
        let head: Seq<Seq<char>> = match ps[0].content {
            PassageContent::Stylesheet(st) => seq![st.content@],
            _ => Seq::empty(),
        };
        head + stylesheet_texts(ps.subrange(1, ps.len() as int))
    }
}

/// The entries with ordinary Twine content, flattened, in order.
pub open spec fn twine_entries(es: Seq<(Seq<char>, Passage)>) -> Seq<(Seq<char>, TwinePassage)>
    decreases es.len(),
{
    if es.len() == 0 {
        Seq::empty()
    } else {
        let head: Seq<(Seq<char>, TwinePassage)> = match es[0].1.content {
            PassageContent::Normal(tc) => seq![
                (es[0].0, TwinePassage { header: es[0].1.header, content: tc }),
            ],
            _ => Seq::empty(),
        };
        head + twine_entries(es.subrange(1, es.len() as int))
    }
}

} // verus!

verus! {

impl core::default::Default for StoryPassages {
    /// The default story holds nothing.
    fn default() -> (r: StoryPassages)
        ensures
            r.title is None,
            r.data is None,
            r.passages.spec_entries() == Seq::<(Seq<char>, Passage)>::empty(),
            r.passages.wf(),
            r.scripts@ == Seq::<Passage>::empty(),
            r.stylesheets@ == Seq::<Passage>::empty(),
    {
        StoryPassages {
            title: None,
            data: None,
            passages: PassageMap::new(),
            scripts: Vec::new(),
            stylesheets: Vec::new(),
            code_map: CodeMap::new(),
        }
    }
}

impl core::default::Default for Story {
    /// The default flattened story holds nothing.
    fn default() -> (r: Story)
        ensures
            r.title is None,
            r.data is None,
            r.passages.spec_entries() == Seq::<(Seq<char>, TwinePassage)>::empty(),
            r.passages.wf(),
            r.scripts@ == Seq::<String>::empty(),
            r.stylesheets@ == Seq::<String>::empty(),
    {
        Story {
            title: None,
            data: None,
            passages: PassageMap::new(),
            scripts: Vec::new(),
            stylesheets: Vec::new(),
            code_map: CodeMap::new(),
        }
    }
}

} // verus!

verus! {

/// The smallest header line strictly after `l` within the span, or
/// `el + 1` when no later line opens a passage.
pub open spec fn next_header(text: Seq<char>, l: int, el: int) -> int
    decreases el - l,
{
    if l >= el {
        el + 1
    } else if is_header_line(text, l + 1) {
        l + 1
    } else {
        next_header(text, l + 1, el)
    }
}

/// What `next_header` answers: a line after `l`, at most one past the
/// span, a header line when within it, with no header line skipped.
pub proof fn lemma_next_header(text: Seq<char>, l: int, el: int)
    requires
        l <= el,
    ensures
        l < next_header(text, l, el) <= el + 1,
        next_header(text, l, el) <= el ==> is_header_line(text, next_header(text, l, el)),
        forall|m: int| l < m < next_header(text, l, el) ==> !is_header_line(text, m),
        next_header(text, l, el) == el + 1 ==> forall|m: int|
            l < m <= el ==> !is_header_line(text, m),
    decreases el - l,
{
    if l < el && !is_header_line(text, l + 1) {
        lemma_next_header(text, l + 1, el);
    }
}

/// The lines at which the span's passages begin: the span's first line,
/// then every header line after it, in order.
pub open spec fn span_starts_from(text: Seq<char>, l: int, el: int) -> Seq<int>
    decreases el - l,
    via span_starts_decreases
{
    if l > el {
        Seq::empty()
    } else {
        let nh = next_header(text, l, el);
        if nh > el {
            seq![l]
        } else {
            seq![l] + span_starts_from(text, nh, el)
        }
    }
}

#[via_fn]
proof fn span_starts_decreases(text: Seq<char>, l: int, el: int) {
    if l <= el {
        lemma_next_header(text, l, el);
    }
}

/// The last line of the passage that begins at line `s`: just before the
/// next header line, or the span's last line.
pub open spec fn span_end(text: Seq<char>, s: int, el: int) -> int {
    next_header(text, s, el) - 1
}

/// What the span starts look like: they begin at `l`, stay within the
/// span, each following one is the next header line after its
/// predecessor, and the last is followed by no further header line.
pub proof fn lemma_span_starts(text: Seq<char>, l: int, el: int)
    requires
        l <= el,
    ensures
        span_starts_from(text, l, el).len() >= 1,
        span_starts_from(text, l, el)[0] == l,
        forall|k: int|
            0 <= k < span_starts_from(text, l, el).len() ==> l <= #[trigger] span_starts_from(
                text,
                l,
                el,
            )[k] <= el,
        forall|k: int|
            0 <= k < span_starts_from(text, l, el).len() - 1 ==> #[trigger] span_starts_from(
                text,
                l,
                el,
            )[k + 1] == next_header(text, span_starts_from(text, l, el)[k], el),
        next_header(
            text,
            span_starts_from(text, l, el)[span_starts_from(text, l, el).len() - 1],
            el,
        ) == el + 1,
    decreases el - l,
{
    lemma_next_header(text, l, el);
    let nh = next_header(text, l, el);
    if nh <= el {
        lemma_span_starts(text, nh, el);
        let st = span_starts_from(text, l, el);
        let tail = span_starts_from(text, nh, el);
        assert(st == seq![l] + tail);
        assert(forall|k: int| 0 <= k < tail.len() ==> st[k + 1] == tail[k]);
    }
}

/// The running accumulation of story assembly: the slots a fold over
/// the spans fills.
pub struct AssemblyState {
    /// The `StoryTitle` passage kept so far
    pub title: Option<Passage>,

    /// The `StoryData` passage kept so far
    pub data: Option<Passage>,

    /// The named ordinary passages kept so far, in insertion order
    pub passages: Seq<(Seq<char>, Passage)>,

    /// The script passages so far
    pub scripts: Seq<Passage>,

    /// The stylesheet passages so far
    pub stylesheets: Seq<Passage>,
}

/// The state story assembly starts from: nothing accumulated.
pub open spec fn empty_assembly() -> AssemblyState {
    AssemblyState {
        title: None,
        data: None,
        passages: Seq::empty(),
        scripts: Seq::empty(),
        stylesheets: Seq::empty(),
    }
}

/// A duplicate-slot warning: the given kind, pointing at the incoming
/// passage's span, referring back to the kept one.
pub open spec fn dup_slot_warn(
    w: Warning,
    kind: WarningType,
    ctx: FullContext,
    refc: FullContext,
) -> bool {
    &&& w.kind == kind
    &&& w.context == Some(ctx)
    &&& w.referent == Some(refc)
    &&& w.position == crate::positions::Position::StoryLevel
    &&& w.context_len is None
}

/// A duplicate-passage warning: it names the passage, points at the
/// incoming span, and refers back to the kept passage.
pub open spec fn dup_passage_warn(
    w: Warning,
    nm: Seq<char>,
    ctx: FullContext,
    refc: FullContext,
) -> bool {
    &&& (match w.kind {
        WarningType::DuplicatePassage(x) => x@ == nm,
        _ => false,
    })
    &&& w.context == Some(ctx)
    &&& w.referent == Some(refc)
    &&& w.position == crate::positions::Position::StoryLevel
    &&& w.context_len is None
}

/// Story assembly as a relation: processing the spans `k` to `upto`
/// carries the accumulation from `s0` to `s1` and produces exactly the
/// warnings `ws`.  A failing span contributes nothing here (its errors
/// are accounted separately); a successful span's passage satisfies
/// `span_parse_ok`, with its warning block first, and lands in the slot
/// its header calls for: the first `StoryTitle` and `StoryData` are
/// kept, later ones and already-known passage names are dropped with a
/// duplicate warning referring back to the kept one, and scripts and
/// stylesheets append.
pub open spec fn assemble_match(
    text: Seq<char>,
    fname: Option<Seq<char>>,
    starts: Seq<int>,
    el: int,
    k: int,
    upto: int,
    s0: AssemblyState,
    s1: AssemblyState,
    ws: Seq<Warning>,
) -> bool
    decreases upto - k,
{
    if k >= upto {
        s0 == s1 && ws.len() == 0
    } else if !(0 <= k && upto <= starts.len()) {
        false
    } else {
        let s = starts[k];
        let e = span_end(text, s, el);
        let hline = crate::twine::line_of(text, s);
        if crate::header::header_err_descs(hline).len() > 0 {
            assemble_match(text, fname, starts, el, k + 1, upto, s0, s1, ws)
        } else {
            exists|p: Passage, wl: int|
                {
                    &&& 0 <= wl <= ws.len()
                    &&& #[trigger] crate::passage::span_parse_ok(
                        p,
                        ws.subrange(0, wl),
                        text,
                        fname,
                        s,
                        e,
                    )
                    &&& ({
                        let d = crate::passage::dispatch_of(hline);
                        if d == 0 {
                            match s0.title {
                                None => assemble_match(
                                    text,
                                    fname,
                                    starts,
                                    el,
                                    k + 1,
                                    upto,
                                    AssemblyState { title: Some(p), ..s0 },
                                    s1,
                                    ws.skip(wl),
                                ),
                                Some(tp) => wl < ws.len() && dup_slot_warn(
                                    ws[wl],
                                    WarningType::DuplicateStoryTitle,
                                    p.context,
                                    tp.context,
                                ) && assemble_match(
                                    text,
                                    fname,
                                    starts,
                                    el,
                                    k + 1,
                                    upto,
                                    s0,
                                    s1,
                                    ws.skip(wl + 1),
                                ),
                            }
                        } else if d == 1 {
                            match s0.data {
                                None => assemble_match(
                                    text,
                                    fname,
                                    starts,
                                    el,
                                    k + 1,
                                    upto,
                                    AssemblyState { data: Some(p), ..s0 },
                                    s1,
                                    ws.skip(wl),
                                ),
                                Some(dp) => wl < ws.len() && dup_slot_warn(
                                    ws[wl],
                                    WarningType::DuplicateStoryData,
                                    p.context,
                                    dp.context,
                                ) && assemble_match(
                                    text,
                                    fname,
                                    starts,
                                    el,
                                    k + 1,
                                    upto,
                                    s0,
                                    s1,
                                    ws.skip(wl + 1),
                                ),
                            }
                        } else if d == 2 {
                            assemble_match(
                                text,
                                fname,
                                starts,
                                el,
                                k + 1,
                                upto,
                                AssemblyState { scripts: s0.scripts.push(p), ..s0 },
                                s1,
                                ws.skip(wl),
                            )
                        } else if d == 3 {
                            assemble_match(
                                text,
                                fname,
                                starts,
                                el,
                                k + 1,
                                upto,
                                AssemblyState { stylesheets: s0.stylesheets.push(p), ..s0 },
                                s1,
                                ws.skip(wl),
                            )
                        } else {
                            let nm = crate::header::name_of(hline);
                            if assoc_contains(s0.passages, nm) {
                                wl < ws.len() && dup_passage_warn(
                                    ws[wl],
                                    nm,
                                    p.context,
                                    (match assoc_lookup(s0.passages, nm) {
                                        Some(kp) => kp.context,
                                        None => p.context,
                                    }),
                                ) && assemble_match(
                                    text,
                                    fname,
                                    starts,
                                    el,
                                    k + 1,
                                    upto,
                                    s0,
                                    s1,
                                    ws.skip(wl + 1),
                                )
                            } else {
                                assemble_match(
                                    text,
                                    fname,
                                    starts,
                                    el,
                                    k + 1,
                                    upto,
                                    AssemblyState { passages: s0.passages.push((nm, p)), ..s0 },
                                    s1,
                                    ws.skip(wl),
                                )
                            }
                        }
                    })
                }
        }
    }
}

/// The error descriptors of the spans `k` to `upto`, in span order: each
/// failing span's header error descriptors, tagged with its header line.
pub open spec fn story_err_descs(
    text: Seq<char>,
    starts: Seq<int>,
    el: int,
    k: int,
    upto: int,
) -> Seq<(int, ErrorType, int, int)>
    decreases upto - k,
{
    if k >= upto || !(0 <= k && upto <= starts.len()) {
        Seq::empty()
    } else {
        let s = starts[k];
        crate::header::header_err_descs(crate::twine::line_of(text, s)).map_values(
            |d: (ErrorType, int, int)| (s, d.0, d.1, d.2),
        ) + story_err_descs(text, starts, el, k + 1, upto)
    }
}

/// Errors match their line-tagged descriptors one for one.
pub open spec fn story_errs_match(
    es: Seq<crate::issues::Error>,
    ds: Seq<(int, ErrorType, int, int)>,
    text: Seq<char>,
    fname: Option<Seq<char>>,
) -> bool {
    &&& es.len() == ds.len()
    &&& forall|i: int|
        0 <= i < es.len() ==> crate::header::header_err_matches(
            es[i],
            ((#[trigger] ds[i]).1, ds[i].2, ds[i].3),
            text,
            ds[i].0,
            fname,
        )
}

/// Splitting the last span off a run of error descriptors.
pub proof fn lemma_story_err_descs_snoc(
    text: Seq<char>,
    starts: Seq<int>,
    el: int,
    j: int,
    k: int,
)
    requires
        0 <= j <= k < starts.len(),
    ensures
        story_err_descs(text, starts, el, j, k + 1) == story_err_descs(text, starts, el, j, k)
            + crate::header::header_err_descs(
            crate::twine::line_of(text, starts[k]),
        ).map_values(|d: (ErrorType, int, int)| (starts[k], d.0, d.1, d.2)),
    decreases k - j,
{
    let tailpart = crate::header::header_err_descs(
        crate::twine::line_of(text, starts[k]),
    ).map_values(|d: (ErrorType, int, int)| (starts[k], d.0, d.1, d.2));
    if j == k {
        assert(story_err_descs(text, starts, el, j, k) =~= Seq::<(
            int,
            ErrorType,
            int,
            int,
        )>::empty());
        assert(story_err_descs(text, starts, el, k + 1, k + 1) =~= Seq::<(
            int,
            ErrorType,
            int,
            int,
        )>::empty());
        assert(story_err_descs(text, starts, el, j, k + 1) =~= tailpart);
        assert(story_err_descs(text, starts, el, j, k) + tailpart =~= tailpart);
    } else {
        lemma_story_err_descs_snoc(text, starts, el, j + 1, k);
        let h = crate::header::header_err_descs(
            crate::twine::line_of(text, starts[j]),
        ).map_values(|d: (ErrorType, int, int)| (starts[j], d.0, d.1, d.2));
        assert(story_err_descs(text, starts, el, j, k + 1) == h + (story_err_descs(
            text,
            starts,
            el,
            j + 1,
            k,
        ) + tailpart));
        assert(story_err_descs(text, starts, el, j, k) == h + story_err_descs(
            text,
            starts,
            el,
            j + 1,
            k,
        ));
        assert(h + (story_err_descs(text, starts, el, j + 1, k) + tailpart) =~= (h
            + story_err_descs(text, starts, el, j + 1, k)) + tailpart);
    }
}

} // verus!

verus! {

/// Appending one span's step to a run of assembly: processing spans `j`
/// to `k` and then span `k` alone composes into processing `j` to
/// `k + 1`, with the warnings concatenated.
pub proof fn lemma_assemble_compose(
    text: Seq<char>,
    fname: Option<Seq<char>>,
    starts: Seq<int>,
    el: int,
    j: int,
    k: int,
    s0: AssemblyState,
    s1: AssemblyState,
    s2: AssemblyState,
    ws1: Seq<Warning>,
    ws2: Seq<Warning>,
)
    requires
        0 <= j <= k,
        assemble_match(text, fname, starts, el, j, k, s0, s1, ws1),
        assemble_match(text, fname, starts, el, k, k + 1, s1, s2, ws2),
    ensures
        assemble_match(text, fname, starts, el, j, k + 1, s0, s2, ws1 + ws2),
    decreases k - j,
{
    if j >= k {
        assert(s0 == s1 && ws1.len() == 0);
        assert(ws1 + ws2 =~= ws2);
    } else {
        let s = starts[j];
        let e = span_end(text, s, el);
        let hline = crate::twine::line_of(text, s);
        if crate::header::header_err_descs(hline).len() > 0 {
            lemma_assemble_compose(text, fname, starts, el, j + 1, k, s0, s1, s2, ws1, ws2);
        } else {
            let (p, wl) = choose|p: Passage, wl: int|
                {
                    &&& 0 <= wl <= ws1.len()
                    &&& #[trigger] crate::passage::span_parse_ok(
                        p,
                        ws1.subrange(0, wl),
                        text,
                        fname,
                        s,
                        e,
                    )
                    &&& ({
                        let d = crate::passage::dispatch_of(hline);
                        if d == 0 {
                            match s0.title {
                                None => assemble_match(
                                    text, fname, starts, el, j + 1, k,
                                    AssemblyState { title: Some(p), ..s0 }, s1, ws1.skip(wl),
                                ),
                                Some(tp) => wl < ws1.len() && dup_slot_warn(
                                    ws1[wl], WarningType::DuplicateStoryTitle, p.context, tp.context,
                                ) && assemble_match(
                                    text, fname, starts, el, j + 1, k, s0, s1, ws1.skip(wl + 1),
                                ),
                            }
                        } else if d == 1 {
                            match s0.data {
                                None => assemble_match(
                                    text, fname, starts, el, j + 1, k,
                                    AssemblyState { data: Some(p), ..s0 }, s1, ws1.skip(wl),
                                ),
                                Some(dp) => wl < ws1.len() && dup_slot_warn(
                                    ws1[wl], WarningType::DuplicateStoryData, p.context, dp.context,
                                ) && assemble_match(
                                    text, fname, starts, el, j + 1, k, s0, s1, ws1.skip(wl + 1),
                                ),
                            }
                        } else if d == 2 {
                            assemble_match(
                                text, fname, starts, el, j + 1, k,
                                AssemblyState { scripts: s0.scripts.push(p), ..s0 }, s1,
                                ws1.skip(wl),
                            )
                        } else if d == 3 {
                            assemble_match(
                                text, fname, starts, el, j + 1, k,
                                AssemblyState { stylesheets: s0.stylesheets.push(p), ..s0 }, s1,
                                ws1.skip(wl),
                            )
                        } else {
                            let nm = crate::header::name_of(hline);
                            if assoc_contains(s0.passages, nm) {
                                wl < ws1.len() && dup_passage_warn(
                                    ws1[wl], nm, p.context,
                                    (match assoc_lookup(s0.passages, nm) {
                                        Some(kp) => kp.context,
                                        None => p.context,
                                    }),
                                ) && assemble_match(
                                    text, fname, starts, el, j + 1, k, s0, s1, ws1.skip(wl + 1),
                                )
                            } else {
                                assemble_match(
                                    text, fname, starts, el, j + 1, k,
                                    AssemblyState { passages: s0.passages.push((nm, p)), ..s0 },
                                    s1, ws1.skip(wl),
                                )
                            }
                        }
                    })
                };
        let d = crate::passage::dispatch_of(hline);
        assert((ws1 + ws2).subrange(0, wl) =~= ws1.subrange(0, wl));
        assert((ws1 + ws2).skip(wl) =~= ws1.skip(wl) + ws2);
        if wl < ws1.len() {
            assert((ws1 + ws2)[wl] == ws1[wl]);
            assert((ws1 + ws2).skip(wl + 1) =~= ws1.skip(wl + 1) + ws2);
        }
        if d == 0 {
            match s0.title {
                None => {
                    lemma_assemble_compose(
                        text, fname, starts, el, j + 1, k,
                        AssemblyState { title: Some(p), ..s0 }, s1, s2, ws1.skip(wl), ws2,
                    );
                },
                Some(_) => {
                    lemma_assemble_compose(
                        text, fname, starts, el, j + 1, k, s0, s1, s2, ws1.skip(wl + 1), ws2,
                    );
                },
            }
        } else if d == 1 {
            match s0.data {
                None => {
                    lemma_assemble_compose(
                        text, fname, starts, el, j + 1, k,
                        AssemblyState { data: Some(p), ..s0 }, s1, s2, ws1.skip(wl), ws2,
                    );
                },
                Some(_) => {
                    lemma_assemble_compose(
                        text, fname, starts, el, j + 1, k, s0, s1, s2, ws1.skip(wl + 1), ws2,
                    );
                },
            }
        } else if d == 2 {
            lemma_assemble_compose(
                text, fname, starts, el, j + 1, k,
                AssemblyState { scripts: s0.scripts.push(p), ..s0 }, s1, s2, ws1.skip(wl), ws2,
            );
        } else if d == 3 {
            lemma_assemble_compose(
                text, fname, starts, el, j + 1, k,
                AssemblyState { stylesheets: s0.stylesheets.push(p), ..s0 }, s1, s2,
                ws1.skip(wl), ws2,
            );
        } else {
            let nm = crate::header::name_of(hline);
            if assoc_contains(s0.passages, nm) {
                lemma_assemble_compose(
                    text, fname, starts, el, j + 1, k, s0, s1, s2, ws1.skip(wl + 1), ws2,
                );
            } else {
                lemma_assemble_compose(
                    text, fname, starts, el, j + 1, k,
                    AssemblyState { passages: s0.passages.push((nm, p)), ..s0 }, s1, s2,
                    ws1.skip(wl), ws2,
                );
            }
        }
        }
    }
}

} // verus!

verus! {

/// One failing span moves the assembly nowhere and yields no warnings.
pub proof fn lemma_one_step_err(
    text: Seq<char>,
    fname: Option<Seq<char>>,
    starts: Seq<int>,
    el: int,
    k: int,
    s: AssemblyState,
)
    requires
        0 <= k < starts.len(),
        crate::header::header_err_descs(crate::twine::line_of(text, starts[k])).len() > 0,
    ensures
        assemble_match(text, fname, starts, el, k, k + 1, s, s, Seq::<Warning>::empty()),
{
    assert(assemble_match(text, fname, starts, el, k + 1, k + 1, s, s, Seq::<Warning>::empty()));
}

/// One successful span moves the assembly by exactly its slot action
/// and yields its warning block.
#[verifier::rlimit(100)]
#[verifier::spinoff_prover]
pub proof fn lemma_one_step(
    text: Seq<char>,
    fname: Option<Seq<char>>,
    starts: Seq<int>,
    el: int,
    k: int,
    s0: AssemblyState,
    s1: AssemblyState,
    p: Passage,
    pws: Seq<Warning>,
    block: Seq<Warning>,
)
    requires
        0 <= k < starts.len(),
        crate::passage::span_parse_ok(
            p,
            pws,
            text,
            fname,
            starts[k],
            span_end(text, starts[k], el),
        ),
        ({
            let hline = crate::twine::line_of(text, starts[k]);
            let d = crate::passage::dispatch_of(hline);
            if d == 0 {
                match s0.title {
                    None => block == pws && s1 == (AssemblyState { title: Some(p), ..s0 }),
                    Some(tp) => s1 == s0 && block.len() == pws.len() + 1 && block.subrange(
                        0,
                        pws.len() as int,
                    ) == pws && dup_slot_warn(
                        block[pws.len() as int],
                        WarningType::DuplicateStoryTitle,
                        p.context,
                        tp.context,
                    ),
                }
            } else if d == 1 {
                match s0.data {
                    None => block == pws && s1 == (AssemblyState { data: Some(p), ..s0 }),
                    Some(dp) => s1 == s0 && block.len() == pws.len() + 1 && block.subrange(
                        0,
                        pws.len() as int,
                    ) == pws && dup_slot_warn(
                        block[pws.len() as int],
                        WarningType::DuplicateStoryData,
                        p.context,
                        dp.context,
                    ),
                }
            } else if d == 2 {
                block == pws && s1 == (AssemblyState { scripts: s0.scripts.push(p), ..s0 })
            } else if d == 3 {
                block == pws && s1 == (AssemblyState { stylesheets: s0.stylesheets.push(p), ..s0 })
            } else {
                let nm = crate::header::name_of(hline);
                if assoc_contains(s0.passages, nm) {
                    s1 == s0 && block.len() == pws.len() + 1 && block.subrange(
                        0,
                        pws.len() as int,
                    ) == pws && dup_passage_warn(
                        block[pws.len() as int],
                        nm,
                        p.context,
                        (match assoc_lookup(s0.passages, nm) {
                            Some(kp) => kp.context,
                            None => p.context,
                        }),
                    )
                } else {
                    block == pws && s1 == (AssemblyState {
                        passages: s0.passages.push((nm, p)),
                        ..s0
                    })
                }
            }
        }),
    ensures
        assemble_match(text, fname, starts, el, k, k + 1, s0, s1, block),
{
    let s = starts[k];
    let e = span_end(text, s, el);
    let hline = crate::twine::line_of(text, s);
    let d = crate::passage::dispatch_of(hline);
    let wl = pws.len() as int;
    assert(block.subrange(0, wl) =~= pws);
    assert(crate::passage::span_parse_ok(p, block.subrange(0, wl), text, fname, s, e));
    assert(assemble_match(text, fname, starts, el, k + 1, k + 1, s1, s1, Seq::<
        Warning,
    >::empty()));
    let dup = if d == 0 {
        s0.title is Some
    } else if d == 1 {
        s0.data is Some
    } else if d == 4 {
        assoc_contains(s0.passages, crate::header::name_of(hline))
    } else {
        false
    };
    if dup {
        assert(block.skip(wl + 1) =~= Seq::<Warning>::empty());
    } else {
        assert(block.skip(wl) =~= Seq::<Warning>::empty());
    }
}

} // verus!

verus! {

/// The shape story assembly maintains on its accumulation: each slot
/// holds its own kind of passage, named after its header, lying on the
/// parsed buffer, and the map's names are unique.
pub open spec fn assembly_shape(
    st: AssemblyState,
    text: Seq<char>,
    fname: Option<Seq<char>>,
) -> bool {
    &&& (match st.title {
        Some(p) => p.content is StoryTitle && p.header.name@ == "StoryTitle"@ && passage_on(
            p,
            text,
            fname,
        ),
        None => true,
    })
    &&& (match st.data {
        Some(p) => p.content is StoryData && p.header.name@ == "StoryData"@ && passage_on(
            p,
            text,
            fname,
        ),
        None => true,
    })
    &&& (forall|m: int|
        0 <= m < st.passages.len() ==> (#[trigger] st.passages[m]).1.content is Normal)
    &&& (forall|m: int|
        0 <= m < st.passages.len() ==> passage_on((#[trigger] st.passages[m]).1, text, fname))
    &&& (forall|m: int|
        0 <= m < st.passages.len() ==> (#[trigger] st.passages[m]).0
            == st.passages[m].1.header.name@)
    &&& (forall|m1: int, m2: int|
        0 <= m1 < m2 < st.passages.len() ==> (#[trigger] st.passages[m1]).0 != (
        #[trigger] st.passages[m2]).0)
    &&& (forall|m: int|
        0 <= m < st.scripts.len() ==> (#[trigger] st.scripts[m]).content is Script && passage_on(
            #[trigger] st.scripts[m],
            text,
            fname,
        ))
    &&& (forall|m: int|
        0 <= m < st.stylesheets.len() ==> (#[trigger] st.stylesheets[m]).content is Stylesheet
            && passage_on(#[trigger] st.stylesheets[m], text, fname))
}

/// Assembly preserves its shape: from a well-shaped accumulation it
/// reaches only well-shaped ones.
#[verifier::rlimit(100)]
#[verifier::spinoff_prover]
pub proof fn lemma_assemble_shape(
    text: Seq<char>,
    fname: Option<Seq<char>>,
    starts: Seq<int>,
    el: int,
    j: int,
    k: int,
    s0: AssemblyState,
    s1: AssemblyState,
    ws: Seq<Warning>,
)
    requires
        assemble_match(text, fname, starts, el, j, k, s0, s1, ws),
        assembly_shape(s0, text, fname),
    ensures
        assembly_shape(s1, text, fname),
    decreases k - j,
{
    if j >= k {
    } else {
        let s = starts[j];
        let e = span_end(text, s, el);
        let hline = crate::twine::line_of(text, s);
        if crate::header::header_err_descs(hline).len() > 0 {
            lemma_assemble_shape(text, fname, starts, el, j + 1, k, s0, s1, ws);
        } else {
            let (p, wl) = choose|p: Passage, wl: int|
                {
                    &&& 0 <= wl <= ws.len()
                    &&& #[trigger] crate::passage::span_parse_ok(
                        p,
                        ws.subrange(0, wl),
                        text,
                        fname,
                        s,
                        e,
                    )
                    &&& ({
                        let d = crate::passage::dispatch_of(hline);
                        if d == 0 {
                            match s0.title {
                                None => assemble_match(
                                    text, fname, starts, el, j + 1, k,
                                    AssemblyState { title: Some(p), ..s0 }, s1, ws.skip(wl),
                                ),
                                Some(tp) => wl < ws.len() && dup_slot_warn(
                                    ws[wl], WarningType::DuplicateStoryTitle, p.context, tp.context,
                                ) && assemble_match(
                                    text, fname, starts, el, j + 1, k, s0, s1, ws.skip(wl + 1),
                                ),
                            }
                        } else if d == 1 {
                            match s0.data {
                                None => assemble_match(
                                    text, fname, starts, el, j + 1, k,
                                    AssemblyState { data: Some(p), ..s0 }, s1, ws.skip(wl),
                                ),
                                Some(dp) => wl < ws.len() && dup_slot_warn(
                                    ws[wl], WarningType::DuplicateStoryData, p.context, dp.context,
                                ) && assemble_match(
                                    text, fname, starts, el, j + 1, k, s0, s1, ws.skip(wl + 1),
                                ),
                            }
                        } else if d == 2 {
                            assemble_match(
                                text, fname, starts, el, j + 1, k,
                                AssemblyState { scripts: s0.scripts.push(p), ..s0 }, s1,
                                ws.skip(wl),
                            )
                        } else if d == 3 {
                            assemble_match(
                                text, fname, starts, el, j + 1, k,
                                AssemblyState { stylesheets: s0.stylesheets.push(p), ..s0 }, s1,
                                ws.skip(wl),
                            )
                        } else {
                            let nm = crate::header::name_of(hline);
                            if assoc_contains(s0.passages, nm) {
                                wl < ws.len() && dup_passage_warn(
                                    ws[wl], nm, p.context,
                                    (match assoc_lookup(s0.passages, nm) {
                                        Some(kp) => kp.context,
                                        None => p.context,
                                    }),
                                ) && assemble_match(
                                    text, fname, starts, el, j + 1, k, s0, s1, ws.skip(wl + 1),
                                )
                            } else {
                                assemble_match(
                                    text, fname, starts, el, j + 1, k,
                                    AssemblyState { passages: s0.passages.push((nm, p)), ..s0 },
                                    s1, ws.skip(wl),
                                )
                            }
                        }
                    })
                };
            let d = crate::passage::dispatch_of(hline);
            assert(passage_on(p, text, fname));
            if d == 0 {
                match s0.title {
                    None => {
                        assert(p.content is StoryTitle) by {
                            match p.content {
                                PassageContent::StoryTitle(_) => {},
                                _ => {
                                    assert(false);
                                },
                            }
                        }
                        lemma_assemble_shape(
                            text, fname, starts, el, j + 1, k,
                            AssemblyState { title: Some(p), ..s0 }, s1, ws.skip(wl),
                        );
                    },
                    Some(_) => {
                        lemma_assemble_shape(
                            text, fname, starts, el, j + 1, k, s0, s1, ws.skip(wl + 1),
                        );
                    },
                }
            } else if d == 1 {
                match s0.data {
                    None => {
                        assert(p.content is StoryData) by {
                            match p.content {
                                PassageContent::StoryData(_) => {},
                                _ => {
                                    assert(false);
                                },
                            }
                        }
                        lemma_assemble_shape(
                            text, fname, starts, el, j + 1, k,
                            AssemblyState { data: Some(p), ..s0 }, s1, ws.skip(wl),
                        );
                    },
                    Some(_) => {
                        lemma_assemble_shape(
                            text, fname, starts, el, j + 1, k, s0, s1, ws.skip(wl + 1),
                        );
                    },
                }
            } else if d == 2 {
                assert(p.content is Script) by {
                    match p.content {
                        PassageContent::Script(_) => {},
                        _ => {
                            assert(false);
                        },
                    }
                }
                lemma_assemble_shape(
                    text, fname, starts, el, j + 1, k,
                    AssemblyState { scripts: s0.scripts.push(p), ..s0 }, s1, ws.skip(wl),
                );
            } else if d == 3 {
                assert(p.content is Stylesheet) by {
                    match p.content {
                        PassageContent::Stylesheet(_) => {},
                        _ => {
                            assert(false);
                        },
                    }
                }
                lemma_assemble_shape(
                    text, fname, starts, el, j + 1, k,
                    AssemblyState { stylesheets: s0.stylesheets.push(p), ..s0 }, s1, ws.skip(wl),
                );
            } else {
                let nm = crate::header::name_of(hline);
                if assoc_contains(s0.passages, nm) {
                    lemma_assemble_shape(
                        text, fname, starts, el, j + 1, k, s0, s1, ws.skip(wl + 1),
                    );
                } else {
                    assert(p.content is Normal) by {
                        match p.content {
                            PassageContent::Normal(_) => {},
                            _ => {
                                assert(false);
                            },
                        }
                    }
                    let mid = AssemblyState { passages: s0.passages.push((nm, p)), ..s0 };
                    assert(assembly_shape(mid, text, fname)) by {
                        assert(forall|m: int|
                            0 <= m < s0.passages.len() ==> mid.passages[m] == s0.passages[m]);
                        assert(mid.passages[s0.passages.len() as int] == (nm, p));
                        assert forall|m1: int, m2: int|
                            0 <= m1 < m2 < mid.passages.len() implies (
                        #[trigger] mid.passages[m1]).0 != (#[trigger] mid.passages[m2]).0 by {
                            if m2 == s0.passages.len() {
                                if mid.passages[m1].0 == nm {
                                    assert(assoc_contains(s0.passages, nm));
                                }
                            }
                        }
                    }
                    lemma_assemble_shape(text, fname, starts, el, j + 1, k, mid, s1, ws.skip(wl));
                }
            }
        }
    }
}

/// Error matchings concatenate.
pub proof fn lemma_errs_match_append(
    es1: Seq<crate::issues::Error>,
    ds1: Seq<(int, ErrorType, int, int)>,
    es2: Seq<crate::issues::Error>,
    ds2: Seq<(int, ErrorType, int, int)>,
    text: Seq<char>,
    fname: Option<Seq<char>>,
)
    requires
        story_errs_match(es1, ds1, text, fname),
        story_errs_match(es2, ds2, text, fname),
    ensures
        story_errs_match(es1 + es2, ds1 + ds2, text, fname),
{
    assert forall|i: int| 0 <= i < (es1 + es2).len() implies crate::header::header_err_matches(
        (es1 + es2)[i],
        ((#[trigger] (ds1 + ds2)[i]).1, (ds1 + ds2)[i].2, (ds1 + ds2)[i].3),
        text,
        (ds1 + ds2)[i].0,
        fname,
    ) by {
        if i < es1.len() {
            assert((es1 + es2)[i] == es1[i]);
            assert((ds1 + ds2)[i] == ds1[i]);
        } else {
            assert((es1 + es2)[i] == es2[i - es1.len()]);
            assert((ds1 + ds2)[i] == ds2[i - ds1.len()]);
        }
    }
}

/// A failed header's errors match its line-tagged descriptors.
pub proof fn lemma_errs_match_of_header(
    es: Seq<crate::issues::Error>,
    text: Seq<char>,
    fname: Option<Seq<char>>,
    line: int,
)
    requires
        crate::header::header_errs_match_seq(
            es,
            crate::header::header_err_descs(crate::twine::line_of(text, line)),
            text,
            line,
            fname,
        ),
    ensures
        story_errs_match(
            es,
            crate::header::header_err_descs(crate::twine::line_of(text, line)).map_values(
                |d: (ErrorType, int, int)| (line, d.0, d.1, d.2),
            ),
            text,
            fname,
        ),
{
    let hd = crate::header::header_err_descs(crate::twine::line_of(text, line));
    let ds = hd.map_values(|d: (ErrorType, int, int)| (line, d.0, d.1, d.2));
    assert forall|i: int| 0 <= i < es.len() implies crate::header::header_err_matches(
        es[i],
        ((#[trigger] ds[i]).1, ds[i].2, ds[i].3),
        text,
        ds[i].0,
        fname,
    ) by {
        assert(ds[i] == (line, hd[i].0, hd[i].1, hd[i].2));
    }
}

} // verus!

verus! {

impl StoryPassages {
    /// The last line of the passage that begins at `cur`: just before
    /// the next header line, or the span's last line.
    fn find_span_end(context: &FullContext, cur: usize, el: usize) -> (r: (usize, bool))
        requires
            context.wf(),
            1 <= cur <= el,
            el as int <= num_lines(context.text()),
        ensures
            r.0 as int == span_end(context.text(), cur as int, el as int),
            r.1 == (next_header(context.text(), cur as int, el as int) <= el as int),
            r.1 ==> r.0 < el,
            !r.1 ==> r.0 == el,
            cur <= r.0,
    {
        let ghost text = context.text();
        let mut nxt = cur;
        let mut found = false;
        while nxt < el && !found
            invariant
                context.wf(),
                text == context.text(),
                cur <= nxt <= el,
                el as int <= num_lines(text),
                1 <= cur,
                found ==> cur < nxt,
                !found ==> forall|m: int| cur < m <= nxt ==> !is_header_line(text, m),
                found ==> is_header_line(text, nxt as int) && (forall|m: int|
                    cur < m < nxt ==> !is_header_line(text, m)),
            decreases el - nxt,
        {
            nxt += 1;
            if Self::header_line(context, nxt) {
                found = true;
            }
        }
        proof {
            lemma_next_header(text, cur as int, el as int);
            if found {
                let nh = next_header(text, cur as int, el as int);
                if nh < nxt as int {
                    assert(is_header_line(text, nh));
                    assert(false);
                }
                if nh > nxt as int {
                    assert(!is_header_line(text, nxt as int));
                    assert(false);
                }
            } else {
                assert(nxt == el);
                if next_header(text, cur as int, el as int) <= el as int {
                    assert(is_header_line(text, next_header(text, cur as int, el as int)));
                    assert(false);
                }
            }
        }
        if found {
            (nxt - 1, true)
        } else {
            (el, false)
        }
    }

    /// Folds one parsed span into the accumulating story: a successful
    /// passage lands in its slot (first-wins, duplicates warn), a failed
    /// one appends its errors; the span's warnings are appended either
    /// way.
    #[verifier::rlimit(100)]
    #[verifier::spinoff_prover]
    fn accumulate_span(
        title: &mut Option<Passage>,
        data: &mut Option<Passage>,
        passages: &mut PassageMap<Passage>,
        scripts: &mut Vec<Passage>,
        stylesheets: &mut Vec<Passage>,
        warnings: &mut Vec<Warning>,
        errors_acc: &mut Result<(), ErrorList>,
        pout: Output<Result<Passage, ErrorList>>,
        Ghost(text): Ghost<Seq<char>>,
        Ghost(fname): Ghost<Option<Seq<char>>>,
        Ghost(starts): Ghost<Seq<int>>,
        Ghost(el): Ghost<int>,
        Ghost(k): Ghost<int>,
    )
        requires
            0 <= k < starts.len(),
            (match pout.spec_output() {
                Err(e) => crate::passage::span_parse_err(
                    e.errors@,
                    pout.spec_warnings(),
                    text,
                    fname,
                    starts[k],
                ),
                Ok(p) => crate::passage::span_parse_ok(
                    p,
                    pout.spec_warnings(),
                    text,
                    fname,
                    starts[k],
                    span_end(text, starts[k], el),
                ),
            }),
            assemble_match(
                text,
                fname,
                starts,
                el,
                0,
                k,
                empty_assembly(),
                AssemblyState {
                    title: *old(title),
                    data: *old(data),
                    passages: old(passages).spec_entries(),
                    scripts: old(scripts)@,
                    stylesheets: old(stylesheets)@,
                },
                old(warnings)@,
            ),
            story_errs_match(
                errors_of(*old(errors_acc)),
                story_err_descs(text, starts, el, 0, k),
                text,
                fname,
            ),
            (match *old(errors_acc) {
                Err(e) => e.errors@.len() > 0,
                Ok(_) => true,
            }),
        ensures
            assemble_match(
                text,
                fname,
                starts,
                el,
                0,
                k + 1,
                empty_assembly(),
                AssemblyState {
                    title: *final(title),
                    data: *final(data),
                    passages: final(passages).spec_entries(),
                    scripts: final(scripts)@,
                    stylesheets: final(stylesheets)@,
                },
                final(warnings)@,
            ),
            story_errs_match(
                errors_of(*final(errors_acc)),
                story_err_descs(text, starts, el, 0, k + 1),
                text,
                fname,
            ),
            (match *final(errors_acc) {
                Err(e) => e.errors@.len() > 0,
                Ok(_) => true,
            }),
    {
        let ghost pws = pout.spec_warnings();
        let ghost w_before = warnings@;
        let ghost s_before = AssemblyState {
            title: *title,
            data: *data,
            passages: passages.spec_entries(),
            scripts: scripts@,
            stylesheets: stylesheets@,
        };
        let (res, mut ws) = pout.take();
        warnings.append(&mut ws);
        let ghost res0 = res;
        let mut res: Result<Passage, ErrorList> = res;
        match res {
            Err(_) => {
                let ghost e_before = errors_of(*errors_acc);
                let merged = ErrorList::merge(errors_acc, &mut res);
                *errors_acc = merged;
                proof {
                    let hline = crate::twine::line_of(text, starts[k]);
                    assert(pws.len() == 0);
                    assert(warnings@ =~= w_before);
                    lemma_one_step_err(text, fname, starts, el, k, s_before);
                    lemma_assemble_compose(
                        text,
                        fname,
                        starts,
                        el,
                        0,
                        k,
                        empty_assembly(),
                        s_before,
                        s_before,
                        w_before,
                        Seq::<Warning>::empty(),
                    );
                    assert(w_before + Seq::<Warning>::empty() =~= warnings@);
                    lemma_story_err_descs_snoc(text, starts, el, 0, k);
                    lemma_errs_match_of_header(errors_of(res0), text, fname, starts[k]);
                    lemma_errs_match_append(
                        e_before,
                        story_err_descs(text, starts, el, 0, k),
                        errors_of(res0),
                        crate::header::header_err_descs(hline).map_values(
                            |d: (ErrorType, int, int)| (starts[k], d.0, d.1, d.2),
                        ),
                        text,
                        fname,
                    );
                    assert(errors_of(*errors_acc) == e_before + errors_of(res0));
                }
            },
            Ok(p) => {
                let ghost gp = p;
                let ghost hline = crate::twine::line_of(text, starts[k]);
                match &p.content {
                    PassageContent::Normal(_) => {
                        let nm = p.header.name.clone();
                        if passages.contains_key(nm.as_str()) {
                            let kept_ctx = match passages.get(nm.as_str()) {
                                Some(kp) => kp.context.clone(),
                                None => {
                                    proof {
                                        lemma_assoc_contains_lookup(
                                            passages.spec_entries(),
                                            nm@,
                                        );
                                    }
                                    unreached()
                                },
                            };
                            warnings.push(
                                Warning::new(
                                    WarningType::DuplicatePassage(nm),
                                    Some(p.context.clone()),
                                ).with_referent(kept_ctx),
                            );
                            proof {
                                let block = pws.push(warnings@.last());
                                assert(warnings@ =~= w_before + block);
                                assert(block.subrange(0, pws.len() as int) =~= pws);
                                lemma_assoc_contains_lookup(s_before.passages, nm@);
                                assert(dup_passage_warn(
                                    block[pws.len() as int],
                                    crate::header::name_of(hline),
                                    gp.context,
                                    (match assoc_lookup(
                                        s_before.passages,
                                        crate::header::name_of(hline),
                                    ) {
                                        Some(kp) => kp.context,
                                        None => gp.context,
                                    }),
                                ));
                                lemma_one_step(
                                    text, fname, starts, el, k, s_before, s_before, gp, pws,
                                    block,
                                );
                                lemma_assemble_compose(
                                    text, fname, starts, el, 0, k, empty_assembly(), s_before,
                                    s_before, w_before, block,
                                );
                            }
                        } else {
                            passages.insert_new(nm, p);
                            proof {
                                assert(warnings@ =~= w_before + pws);
                                let s_after = AssemblyState {
                                    passages: s_before.passages.push(
                                        (crate::header::name_of(hline), gp),
                                    ),
                                    ..s_before
                                };
                                assert(passages.spec_entries() =~= s_after.passages);
                                lemma_one_step(
                                    text, fname, starts, el, k, s_before, s_after, gp, pws, pws,
                                );
                                lemma_assemble_compose(
                                    text, fname, starts, el, 0, k, empty_assembly(), s_before,
                                    s_after, w_before, pws,
                                );
                            }
                        }
                    },
                    PassageContent::StoryTitle(_) => {
                        let mut keep = false;
                        match &*title {
                            Some(existing) => {
                                warnings.push(
                                    Warning::new(
                                        WarningType::DuplicateStoryTitle,
                                        Some(p.context.clone()),
                                    ).with_referent(existing.context.clone()),
                                );
                                keep = true;
                            },
                            None => {},
                        }
                        if !keep {
                            *title = Some(p);
                            proof {
                                assert(warnings@ =~= w_before + pws);
                                let s_after = AssemblyState { title: Some(gp), ..s_before };
                                lemma_one_step(
                                    text, fname, starts, el, k, s_before, s_after, gp, pws, pws,
                                );
                                lemma_assemble_compose(
                                    text, fname, starts, el, 0, k, empty_assembly(), s_before,
                                    s_after, w_before, pws,
                                );
                            }
                        } else {
                            proof {
                                let block = pws.push(warnings@.last());
                                assert(warnings@ =~= w_before + block);
                                assert(block.subrange(0, pws.len() as int) =~= pws);
                                lemma_one_step(
                                    text, fname, starts, el, k, s_before, s_before, gp, pws,
                                    block,
                                );
                                lemma_assemble_compose(
                                    text, fname, starts, el, 0, k, empty_assembly(), s_before,
                                    s_before, w_before, block,
                                );
                            }
                        }
                    },
                    PassageContent::StoryData(_) => {
                        let mut keep = false;
                        match &*data {
                            Some(existing) => {
                                warnings.push(
                                    Warning::new(
                                        WarningType::DuplicateStoryData,
                                        Some(p.context.clone()),
                                    ).with_referent(existing.context.clone()),
                                );
                                keep = true;
                            },
                            None => {},
                        }
                        if !keep {
                            *data = Some(p);
                            proof {
                                assert(warnings@ =~= w_before + pws);
                                let s_after = AssemblyState { data: Some(gp), ..s_before };
                                lemma_one_step(
                                    text, fname, starts, el, k, s_before, s_after, gp, pws, pws,
                                );
                                lemma_assemble_compose(
                                    text, fname, starts, el, 0, k, empty_assembly(), s_before,
                                    s_after, w_before, pws,
                                );
                            }
                        } else {
                            proof {
                                let block = pws.push(warnings@.last());
                                assert(warnings@ =~= w_before + block);
                                assert(block.subrange(0, pws.len() as int) =~= pws);
                                lemma_one_step(
                                    text, fname, starts, el, k, s_before, s_before, gp, pws,
                                    block,
                                );
                                lemma_assemble_compose(
                                    text, fname, starts, el, 0, k, empty_assembly(), s_before,
                                    s_before, w_before, block,
                                );
                            }
                        }
                    },
                    PassageContent::Script(_) => {
                        scripts.push(p);
                        proof {
                            assert(warnings@ =~= w_before + pws);
                            let s_after = AssemblyState {
                                scripts: s_before.scripts.push(gp),
                                ..s_before
                            };
                            lemma_one_step(
                                text, fname, starts, el, k, s_before, s_after, gp, pws, pws,
                            );
                            lemma_assemble_compose(
                                text, fname, starts, el, 0, k, empty_assembly(), s_before,
                                s_after, w_before, pws,
                            );
                        }
                    },
                    PassageContent::Stylesheet(_) => {
                        stylesheets.push(p);
                        proof {
                            assert(warnings@ =~= w_before + pws);
                            let s_after = AssemblyState {
                                stylesheets: s_before.stylesheets.push(gp),
                                ..s_before
                            };
                            lemma_one_step(
                                text, fname, starts, el, k, s_before, s_after, gp, pws, pws,
                            );
                            lemma_assemble_compose(
                                text, fname, starts, el, 0, k, empty_assembly(), s_before,
                                s_after, w_before, pws,
                            );
                        }
                    },
                }
                proof {
                    lemma_story_err_descs_snoc(text, starts, el, 0, k);
                    assert(crate::header::header_err_descs(hline).map_values(
                        |d: (ErrorType, int, int)| (starts[k], d.0, d.1, d.2),
                    ) =~= Seq::<(int, ErrorType, int, int)>::empty());
                    assert(story_err_descs(text, starts, el, 0, k + 1) =~= story_err_descs(
                        text,
                        starts,
                        el,
                        0,
                        k,
                    ));
                }
            },
        }
    }
}

} // verus!

verus! {

impl StoryPassages {
    /// Folds one file's parse outcome into an accumulating story and a
    /// running error list: a parsed unit is merged in with
    /// [`StoryPassages::merge_from`]; a failed unit leaves the story's
    /// passages as they are, folds the unit's code map in, and appends
    /// the unit's errors — so later files are still parsed and every
    /// defect is reported together.  Either way the unit's warnings come
    /// first in the returned list.
    pub fn fold_unit(
        acc: &mut StoryPassages,
        errors: &mut ErrorList,
        unit: Output<Result<StoryPassages, ContextErrorList>>,
    ) -> (r: Vec<Warning>)
        requires
            old(acc).passages.wf(),
            (match unit.spec_output() {
                Ok(u) => u.passages.wf() && old(acc).passages.spec_entries().len() + 1
                    + u.passages.spec_entries().len() <= usize::MAX,
                Err(e) => e.error_list.errors@.len() > 0,
            }),
        ensures
            final(acc).passages.wf(),
            r@.len() >= unit.spec_warnings().len(),
            r@.subrange(0, unit.spec_warnings().len() as int) == unit.spec_warnings(),
            forall|k: int|
                #[trigger] old(acc).code_map.spec_names().dom().contains(k)
                    ==> final(acc).code_map.spec_names().dom().contains(k)
                    && final(acc).code_map.spec_names()[k]
                    == old(acc).code_map.spec_names()[k],
            final(acc).code_map.spec_contexts().len()
                >= old(acc).code_map.spec_contexts().len(),
            forall|i: int|
                0 <= i < old(acc).code_map.spec_contexts().len()
                    ==> (#[trigger] final(acc).code_map.spec_contexts()[i])
                    == old(acc).code_map.spec_contexts()[i],
            (match unit.spec_output() {
                Ok(u) => {
                    let a = old(acc).passages.spec_entries();
                    let b = renumbered_entries(u.passages.spec_entries(), a.len() as int + 1);
                    let wtd = dup_title_warns(*old(acc), u) + dup_data_warns(*old(acc), u);
                    let mw = r@.skip(unit.spec_warnings().len() as int);
                    &&& *final(errors) == *old(errors)
                    &&& final(acc).title == (if old(acc).title is None {
                        u.title
                    } else {
                        old(acc).title
                    })
                    &&& final(acc).data == (if old(acc).data is None {
                        u.data
                    } else {
                        old(acc).data
                    })
                    &&& final(acc).passages.spec_entries() == merged_entries(a, b)
                    &&& final(acc).scripts@ == old(acc).scripts@ + u.scripts@
                    &&& final(acc).stylesheets@ == old(acc).stylesheets@ + u.stylesheets@
                    &&& mw.len() == wtd.len() + dup_entries(a, b).len()
                    &&& mw.subrange(0, wtd.len() as int) == wtd
                    &&& (forall|k: int|
                        0 <= k < dup_entries(a, b).len() ==> dup_warn_matches(
                            mw[wtd.len() + k],
                            #[trigger] dup_entries(a, b)[k],
                            a,
                        ))
                },
                Err(e) => {
                    &&& final(acc).title == old(acc).title
                    &&& final(acc).data == old(acc).data
                    &&& final(acc).passages.spec_entries() == old(acc).passages.spec_entries()
                    &&& final(acc).scripts@ == old(acc).scripts@
                    &&& final(acc).stylesheets@ == old(acc).stylesheets@
                    &&& final(errors).errors@ == old(errors).errors@ + e.error_list.errors@
                    &&& r@.len() == unit.spec_warnings().len()
                },
            }),
    {
        let ghost uwlen = unit.spec_warnings().len() as int;
        let (res, mut r) = unit.take();
        match res {
            Ok(u) => {
                let mut merge_warnings = acc.merge_from(u);
                let ghost mws = merge_warnings@;
                r.append(&mut merge_warnings);
                proof {
                    assert(r@.subrange(0, uwlen) =~= unit.spec_warnings());
                    assert(r@.skip(uwlen) =~= mws);
                }
                r
            },
            Err(e) => {
                let ContextErrorList { error_list: mut unit_errors, code_map: mut cm } = e;
                let start_ids = acc.code_map.len();
                cm.renumber_file_ids(start_ids);
                acc.code_map.absorb(cm);
                errors.errors.append(&mut unit_errors.errors);
                proof {
                    assert(r@.subrange(0, uwlen) =~= unit.spec_warnings());
                }
                r
            },
        }
    }
}

} // verus!
