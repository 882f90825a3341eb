//! A per-story registry mapping small integer file ids to file names and
//! to each file's root context.

use crate::context::FullContext;
use crate::issues::Error;
use crate::issues::ErrorList;
use std::collections::hash_map::RandomState;
use vstd::prelude::*;

verus! {

#[verifier::external_type_specification]
#[verifier::external_body]
#[verifier::reject_recursive_types(L)]
#[verifier::reject_recursive_types(R)]
#[verifier::reject_recursive_types(LS)]
#[verifier::reject_recursive_types(RS)]
pub struct ExBiHashMap<L, R, LS, RS>(bimap::BiHashMap<L, R, LS, RS>);

/// The bidirectional map backing a code map: file ids on the left,
/// file names on the right.
pub type FileNameMap = bimap::BiHashMap<usize, String, RandomState, RandomState>;

/// What an id-to-file-name bimap holds: the partial map from left ids to
/// right names.  By the bimap's own invariant the map is injective: its
/// `get_by_right` answers along this same map.
pub uninterp spec fn bimap_pairs(m: FileNameMap) -> Map<int, Seq<char>>;

/// Relies on `bimap::BiHashMap::new`: a fresh bimap holds nothing.
#[verifier::external_body]
fn bimap_new() -> (r: FileNameMap)
    ensures
        forall|k: int| !bimap_pairs(r).dom().contains(k),
{
    bimap::BiHashMap::new()
}

/// Relies on `bimap::BiHashMap::len`: how many pairs the bimap holds.
#[verifier::external_body]
fn bimap_len(m: &FileNameMap) -> (r: usize)
    ensures
        r == bimap_pairs(*m).dom().len(),
        bimap_pairs(*m).dom().finite() || r == 0,
{
    m.len()
}

/// Relies on `bimap::BiHashMap::insert_no_overwrite`: a pair whose sides
/// are both fresh goes in; otherwise the bimap is unchanged.
#[verifier::external_body]
fn bimap_insert(m: &mut FileNameMap, left: usize, right: String) -> (r: bool)
    ensures
        r ==> bimap_pairs(*final(m)) == bimap_pairs(*old(m)).insert(left as int, right@),
        !r ==> bimap_pairs(*final(m)) == bimap_pairs(*old(m)),
        r == (!bimap_pairs(*old(m)).dom().contains(left as int) && (forall|k: int|
            bimap_pairs(*old(m)).dom().contains(k) ==> bimap_pairs(*old(m))[k] != right@)),
{
    m.insert_no_overwrite(left, right).is_ok()
}

/// Relies on `bimap::BiHashMap::get_by_left`: the name an id maps to.
#[verifier::external_body]
fn bimap_get_by_left<'a>(m: &'a FileNameMap, left: usize) -> (r: Option<&'a String>)
    ensures
        (match r {
            Some(name) => bimap_pairs(*m).dom().contains(left as int) && bimap_pairs(*m)[left as int]
                == name@,
            None => !bimap_pairs(*m).dom().contains(left as int),
        }),
{
    m.get_by_left(&left)
}

/// Relies on `bimap::BiHashMap::get_by_right`: the id a name maps from.
#[verifier::external_body]
fn bimap_get_by_right(m: &FileNameMap, right: &String) -> (r: Option<usize>)
    ensures
        (match r {
            Some(id) => bimap_pairs(*m).dom().contains(id as int) && bimap_pairs(*m)[id as int]
                == right@,
            None => forall|k: int|
                bimap_pairs(*m).dom().contains(k) ==> bimap_pairs(*m)[k] != right@,
        }),
{
    m.get_by_right(right).copied()
}

/// Relies on `bimap::BiHashMap::iter`: every pair the bimap holds, each
/// id and each name once (the bimap keeps both directions injective), in
/// no promised order.
#[verifier::external_body]
fn bimap_to_pairs(m: &FileNameMap) -> (r: Vec<(usize, String)>)
    ensures
        forall|i: int|
            0 <= i < r@.len() ==> bimap_pairs(*m).dom().contains((#[trigger] r@[i]).0 as int)
                && bimap_pairs(*m)[r@[i].0 as int] == r@[i].1@,
        forall|k: int|
            bimap_pairs(*m).dom().contains(k) ==> exists|i: int|
                0 <= i < r@.len() && (#[trigger] r@[i]).0 as int == k,
        forall|i: int, j: int| 0 <= i < j < r@.len() ==> r@[i].0 != r@[j].0,
        forall|i: int, j: int| 0 <= i < j < r@.len() ==> r@[i].1@ != r@[j].1@,
{
    m.iter().map(|(l, r)| (*l, r.clone())).collect()
}

/// A code map for stories: a bidirectional map between file ids and file
/// names, and each file's root context.
#[derive(Debug)]
pub struct CodeMap {
    id_file_map: FileNameMap,
    contexts: Vec<(usize, FullContext)>,
}

impl CodeMap {
    /// The map from file ids to file names.
    pub closed spec fn spec_names(&self) -> Map<int, Seq<char>> {
        bimap_pairs(self.id_file_map)
    }

    /// The contexts registered, with their ids.
    pub closed spec fn spec_contexts(&self) -> Seq<(int, FullContext)> {
        self.contexts@.map_values(|e: (usize, FullContext)| (e.0 as int, e.1))
    }

    /// Creates an empty code map.
    pub fn new() -> (r: CodeMap)
        ensures
            r.spec_names() == Map::<int, Seq<char>>::empty(),
            r.spec_contexts() == Seq::<(int, FullContext)>::empty(),
    {
        let r = CodeMap { id_file_map: bimap_new(), contexts: Vec::new() };
        proof {
            assert(r.spec_contexts() =~= Seq::<(int, FullContext)>::empty());
            assert(r.spec_names().dom() =~= Set::<int>::empty());
            assert(r.spec_names() =~= Map::<int, Seq<char>>::empty());
        }
        r
    }

    /// How many files the map knows.
    pub fn len(&self) -> (r: usize)
        ensures
            r == self.spec_names().dom().len(),
    {
        bimap_len(&self.id_file_map)
    }

    /// Gets the context for file id `id`.
    pub fn get_context(&self, id: usize) -> (r: Option<&FullContext>)
        ensures
            (match r {
                Some(c) => exists|i: int|
                    0 <= i < self.spec_contexts().len() && #[trigger] self.spec_contexts()[i] == (
                    id as int,
                    *c,
                ),
                None => forall|i: int|
                    0 <= i < self.spec_contexts().len() ==> (#[trigger] self.spec_contexts()[i]).0
                        != id as int,
            }),
    {
        let n = self.contexts.len();
        let mut i: usize = 0;
        while i < n
            invariant
                i <= n,
                n == self.contexts@.len(),
                forall|j: int|
                    0 <= j < i ==> (#[trigger] self.contexts@[j]).0 != id,
            decreases n - i,
        {
            if self.contexts[i].0 == id {
                proof {
                    assert(self.spec_contexts()[i as int] == (id as int, self.contexts@[i as int].1));
                }
                return Some(&self.contexts[i].1);
            }
            i += 1;
        }
        proof {
            assert(forall|i: int|
                0 <= i < self.spec_contexts().len() ==> (#[trigger] self.spec_contexts()[i]).0
                    == self.contexts@[i].0 as int);
        }
        None
    }

    /// Every context the map holds is well formed.
    pub open spec fn ctxs_wf(&self) -> bool {
        forall|i: int|
            0 <= i < self.spec_contexts().len() ==> (#[trigger] self.spec_contexts()[i]).1.wf()
    }

    /// Gets the table of character offsets at which the lines of file
    /// `id` begin, if the map knows that file.
    pub fn line_starts(&self, id: usize) -> (r: Option<&Vec<usize>>)
        requires
            self.ctxs_wf(),
        ensures
            (match r {
                Some(v) => exists|i: int|
                    0 <= i < self.spec_contexts().len() && (#[trigger] self.spec_contexts()[i]).0
                        == id as int && v@.map_values(|x: usize| x as int)
                        == crate::text::line_starts_of(self.spec_contexts()[i].1.text()),
                None => forall|i: int|
                    0 <= i < self.spec_contexts().len() ==> (#[trigger] self.spec_contexts()[i]).0
                        != id as int,
            }),
    {
        match self.get_context(id) {
            Some(c) => {
                proof {
                    let i = choose|i: int|
                        0 <= i < self.spec_contexts().len() && #[trigger] self.spec_contexts()[i]
                            == (id as int, *c);
                }
                Some(c.get_line_starts())
            },
            None => None,
        }
    }

    /// Gets the character-offset range of the one-indexed line `line` of
    /// file `id`: from the line's first character to one past its last,
    /// not counting its newline.  Nothing comes back when the map does
    /// not know the file or the line is not on it.
    pub fn line_range(&self, id: usize, line: usize) -> (r: Option<(usize, usize)>)
        requires
            self.ctxs_wf(),
        ensures
            (match r {
                Some(p) => exists|i: int|
                    {
                        let text = (#[trigger] self.spec_contexts()[i]).1.text();
                        &&& 0 <= i < self.spec_contexts().len()
                        &&& self.spec_contexts()[i].0 == id as int
                        &&& 1 <= line <= crate::text::num_lines(text)
                        &&& p.0 as int == crate::text::line_start(text, line as int - 1)
                        &&& p.1 as int == p.0 + crate::text::line_len_at(text, line as int - 1)
                    },
                None => (forall|i: int|
                    0 <= i < self.spec_contexts().len() ==> (#[trigger] self.spec_contexts()[i]).0
                        != id as int) || (exists|i: int|
                    0 <= i < self.spec_contexts().len() && (#[trigger] self.spec_contexts()[i]).0
                        == id as int && !(1 <= line <= crate::text::num_lines(
                        self.spec_contexts()[i].1.text(),
                    ))),
            }),
    {
        let c = match self.get_context(id) {
            Some(c) => c,
            None => {
                return None;
            },
        };
        proof {
            let i = choose|i: int|
                0 <= i < self.spec_contexts().len() && #[trigger] self.spec_contexts()[i] == (
                id as int,
                *c,
            );
        }
        let table = c.get_line_starts();
        if line < 1 || line > table.len() {
            proof {
                crate::text::lemma_line_starts(c.text());
            }
            return None;
        }
        proof {
            crate::text::lemma_line_starts(c.text());
            assert(table@.map_values(|x: usize| x as int)[line as int - 1]
                == table@[line as int - 1] as int);
            crate::text::lemma_line_in_bounds(c.text(), line as int - 1);
        }
        let a = table[line - 1];
        let l = c.line_len(line);
        Some((a, a + l))
    }

    /// Gets the file name for file id `id`.
    pub fn lookup_name(&self, id: usize) -> (r: Option<&str>)
        ensures
            (match r {
                Some(name) => self.spec_names().dom().contains(id as int) && self.spec_names()[id as int]
                    == name@,
                None => !self.spec_names().dom().contains(id as int),
            }),
    {
        match bimap_get_by_left(&self.id_file_map, id) {
            Some(name) => Some(name.as_str()),
            None => None,
        }
    }

    /// Gets the file id for file name `name`.
    pub fn lookup_id(&self, name: String) -> (r: Option<usize>)
        ensures
            (match r {
                Some(id) => self.spec_names().dom().contains(id as int) && self.spec_names()[id as int]
                    == name@,
                None => forall|k: int|
                    self.spec_names().dom().contains(k) ==> self.spec_names()[k] != name@,
            }),
    {
        bimap_get_by_right(&self.id_file_map, &name)
    }

    /// Registers a context under the next free file id, if the context
    /// carries a file name: the id is the map's size, and the pair and
    /// the context go in when both the id and the name are fresh;
    /// otherwise the map is left unchanged.
    pub(crate) fn add(&mut self, context: FullContext)
        ensures
            ({
                let names = old(self).spec_names();
                let new_id = names.dom().len() as int;
                match context.spec_file_name() {
                    None => final(self).spec_names() == names && final(self).spec_contexts()
                        == old(self).spec_contexts(),
                    Some(n) => {
                        if !names.dom().contains(new_id) && (forall|k: int|
                            names.dom().contains(k) ==> names[k] != n) {
                            &&& final(self).spec_names() == names.insert(new_id, n)
                            &&& final(self).spec_contexts() == old(self).spec_contexts().push(
                                (new_id, context),
                            )
                        } else {
                            &&& final(self).spec_names() == names
                            &&& final(self).spec_contexts() == old(self).spec_contexts()
                        }
                    },
                }
            }),
    {
        let name = match context.get_file_name() {
            Some(n) => n.clone(),
            None => {
                return ;
            },
        };
        let new_id = bimap_len(&self.id_file_map);
        let ghost orig = self.spec_contexts();
        if bimap_insert(&mut self.id_file_map, new_id, name) {
            self.contexts.push((new_id, context));
            proof {
                assert(self.spec_contexts() =~= orig.push((new_id as int, context)));
            }
        }
    }

    /// Moves every file id up by `start`: every resulting pair is an old
    /// pair moved up, every old pair whose moved id still fits arrives,
    /// and the contexts keep their order with their ids moved up where
    /// they fit.
    pub(crate) fn renumber_file_ids(&mut self, start: usize)
        ensures
            forall|k: int|
                final(self).spec_names().dom().contains(k) ==> old(self).spec_names().dom().contains(
                    k - start,
                ) && final(self).spec_names()[k] == old(self).spec_names()[k - start],
            forall|k: int|
                old(self).spec_names().dom().contains(k) && k + start <= usize::MAX ==> final(self).spec_names().dom().contains(k + start)
                    && final(self).spec_names()[k + start] == old(self).spec_names()[k],
            final(self).spec_contexts().len() == old(self).spec_contexts().len(),
            forall|i: int|
                0 <= i < final(self).spec_contexts().len() ==> (#[trigger] final(self).spec_contexts()[i]) == (if old(self).spec_contexts()[i].0 + start <= usize::MAX {
                    (old(self).spec_contexts()[i].0 + start, old(self).spec_contexts()[i].1)
                } else {
                    old(self).spec_contexts()[i]
                }),
    {
        let ghost om = bimap_pairs(self.id_file_map);
        let pairs = bimap_to_pairs(&self.id_file_map);
        let mut fresh = bimap_new();
        let n = pairs.len();
        let mut i: usize = 0;
        while i < n
            invariant
                i <= n,
                n == pairs@.len(),
                om == bimap_pairs(self.id_file_map),
                forall|j: int|
                    0 <= j < n ==> om.dom().contains((#[trigger] pairs@[j]).0 as int)
                        && om[pairs@[j].0 as int] == pairs@[j].1@,
                forall|k: int|
                    om.dom().contains(k) ==> exists|j: int|
                        0 <= j < n && (#[trigger] pairs@[j]).0 as int == k,
                forall|a: int, b: int| 0 <= a < b < n ==> pairs@[a].0 != pairs@[b].0,
                forall|a: int, b: int| 0 <= a < b < n ==> pairs@[a].1@ != pairs@[b].1@,
                forall|k: int|
                    bimap_pairs(fresh).dom().contains(k) ==> exists|j: int|
                        0 <= j < i && (#[trigger] pairs@[j]).0 + start == k && pairs@[j].0 + start
                            <= usize::MAX && bimap_pairs(fresh)[k] == pairs@[j].1@,
                forall|j: int|
                    0 <= j < i && (#[trigger] pairs@[j]).0 + start <= usize::MAX ==> bimap_pairs(
                        fresh,
                    ).dom().contains(pairs@[j].0 + start) && bimap_pairs(fresh)[pairs@[j].0 + start]
                        == pairs@[j].1@,
            decreases n - i,
        {
            let (id, name) = (pairs[i].0, pairs[i].1.clone());
            if id <= usize::MAX - start {
                let ghost pre = bimap_pairs(fresh);
                let ok = bimap_insert(&mut fresh, id + start, name);
                proof {
                    if !ok {
                        if pre.dom().contains(id as int + start) {
                            let j = choose|j: int|
                                0 <= j < i && (#[trigger] pairs@[j]).0 + start == id as int + start
                                    && pairs@[j].0 + start <= usize::MAX && pre[id as int + start]
                                    == pairs@[j].1@;
                            assert(pairs@[j].0 == pairs@[i as int].0);
                            assert(false);
                        } else {
                            let w = choose|w: int|
                                pre.dom().contains(w) && pre[w] == name@;
                            let j = choose|j: int|
                                0 <= j < i && (#[trigger] pairs@[j]).0 + start == w && pairs@[j].0
                                    + start <= usize::MAX && pre[w] == pairs@[j].1@;
                            assert(pairs@[j].1@ == pairs@[i as int].1@);
                            assert(false);
                        }
                    }
                }
            }
            i += 1;
        }
        self.id_file_map = fresh;
        proof {
            assert forall|k: int|
                self.spec_names().dom().contains(k) implies om.dom().contains(k - start)
                && self.spec_names()[k] == om[k - start] by {
                let j = choose|j: int|
                    0 <= j < n && (#[trigger] pairs@[j]).0 + start == k && pairs@[j].0 + start
                        <= usize::MAX && bimap_pairs(fresh)[k] == pairs@[j].1@;
            }
            assert forall|k: int|
                om.dom().contains(k) && k + start <= usize::MAX implies self.spec_names().dom().contains(
                k + start,
            ) && self.spec_names()[k + start] == om[k] by {
                let j = choose|j: int| 0 <= j < n && (#[trigger] pairs@[j]).0 as int == k;
            }
        }
        let ghost cb = self.spec_contexts();
        let ghost names_after = self.spec_names();
        let m = self.contexts.len();
        let mut j: usize = 0;
        while j < m
            invariant
                j <= m,
                m == self.contexts@.len(),
                m == cb.len(),
                om == old(self).spec_names(),
                cb == old(self).spec_contexts(),
                self.spec_names() == names_after,
                forall|k: int|
                    names_after.dom().contains(k) ==> om.dom().contains(k - start)
                        && names_after[k] == om[k - start],
                forall|k: int|
                    om.dom().contains(k) && k + start <= usize::MAX
                        ==> names_after.dom().contains(k + start) && names_after[k + start]
                        == om[k],
                forall|i2: int|
                    j <= i2 < m ==> #[trigger] self.spec_contexts()[i2] == cb[i2],
                forall|i2: int|
                    0 <= i2 < j ==> #[trigger] self.spec_contexts()[i2] == (if cb[i2].0 + start
                        <= usize::MAX {
                        (cb[i2].0 + start, cb[i2].1)
                    } else {
                        cb[i2]
                    }),
            decreases m - j,
        {
            let id = self.contexts[j].0;
            proof {
                assert(self.spec_contexts()[j as int] == cb[j as int]);
                assert(self.spec_contexts()[j as int] == (self.contexts@[j as int].0 as int,
                self.contexts@[j as int].1));
            }
            if id <= usize::MAX - start {
                let ctx = self.contexts[j].1.clone();
                let ghost pre = self.spec_contexts();
                proof {
                    assert(ctx == cb[j as int].1);
                }
                self.contexts.set(j, (id + start, ctx));
                proof {
                    assert(self.spec_contexts() =~= pre.update(
                        j as int,
                        ((id + start) as int, cb[j as int].1),
                    ));
                }
            }
            j += 1;
        }
    }

    /// Folds another code map into this one, keeping this one's pairs
    /// where ids or names collide; nothing this map already holds is
    /// lost or changed.
    pub(crate) fn absorb(&mut self, other: CodeMap)
        ensures
            forall|k: int|
                #[trigger] old(self).spec_names().dom().contains(k) ==> final(self).spec_names().dom().contains(k)
                    && final(self).spec_names()[k] == old(self).spec_names()[k],
            final(self).spec_contexts().len() >= old(self).spec_contexts().len(),
            forall|i: int|
                0 <= i < old(self).spec_contexts().len() ==> (#[trigger] final(self).spec_contexts()[i]) == old(self).spec_contexts()[i],
    {
        let ghost onames = self.spec_names();
        let ghost octxs = self.spec_contexts();
        let pairs = bimap_to_pairs(&other.id_file_map);
        let n = pairs.len();
        let mut i: usize = 0;
        while i < n
            invariant
                i <= n,
                n == pairs@.len(),
                octxs == self.spec_contexts(),
                forall|k: int|
                    #[trigger] onames.dom().contains(k) ==> self.spec_names().dom().contains(k)
                        && self.spec_names()[k] == onames[k],
            decreases n - i,
        {
            let ghost pre = self.spec_names();
            bimap_insert(&mut self.id_file_map, pairs[i].0, pairs[i].1.clone());
            proof {
                assert forall|k: int| onames.dom().contains(k) implies
                    self.spec_names().dom().contains(k) && self.spec_names()[k] == onames[k] by {
                    assert(pre.dom().contains(k));
                }
            }
            i += 1;
        }
        let mut others = other.contexts;
        let m = others.len();
        let mut j: usize = 0;
        while j < m
            invariant
                j <= m,
                m == others@.len(),
                forall|k: int|
                    #[trigger] onames.dom().contains(k) ==> self.spec_names().dom().contains(k)
                        && self.spec_names()[k] == onames[k],
                self.spec_contexts().len() >= octxs.len(),
                forall|i2: int|
                    0 <= i2 < octxs.len() ==> #[trigger] self.spec_contexts()[i2] == octxs[i2],
            decreases m - j,
        {
            let id = others[j].0;
            match self.get_context(id) {
                Some(_) => {},
                None => {
                    let ctx = others[j].1.clone();
                    let ghost pre = self.spec_contexts();
                    self.contexts.push((id, ctx));
                    proof {
                        assert(self.spec_contexts() =~= pre.push((id as int, ctx)));
                    }
                },
            }
            j += 1;
        }
    }
}

impl core::default::Default for CodeMap {
    /// The default code map is empty.
    fn default() -> (r: CodeMap)
        ensures
            r.spec_names() == Map::<int, Seq<char>>::empty(),
            r.spec_contexts() == Seq::<(int, FullContext)>::empty(),
    {
        CodeMap::new()
    }
}

/// An [`ErrorList`] with an attached [`CodeMap`], so that a consumer can
/// resolve error contexts back to file name, line and column.
#[derive(Debug)]
pub struct ContextErrorList {
    /// The underlying error list
    pub error_list: ErrorList,

    /// The attached code map
    pub code_map: CodeMap,
}

impl core::convert::From<Error> for ContextErrorList {
    /// A one-error list with an empty code map.
    fn from(e: Error) -> (r: ContextErrorList)
        ensures
            r.error_list.errors@ == seq![e],
            r.code_map.spec_contexts() == Seq::<(int, FullContext)>::empty(),
    {
        let mut error_list = ErrorList::new();
        error_list.push(e);
        proof {
            assert(error_list.errors@ =~= seq![e]);
        }
        ContextErrorList { error_list, code_map: CodeMap::new() }
    }
}

impl vstd::std_specs::convert::FromSpecImpl<Error> for ContextErrorList {
    open spec fn obeys_from_spec() -> bool {
        false
    }

    open spec fn from_spec(e: Error) -> ContextErrorList {
        arbitrary()
    }
}

impl core::convert::From<ErrorList> for ContextErrorList {
    /// Attaches an empty code map to an error list.
    fn from(error_list: ErrorList) -> (r: ContextErrorList)
        ensures
            r.error_list == error_list,
            r.code_map.spec_contexts() == Seq::<(int, FullContext)>::empty(),
    {
        ContextErrorList { error_list, code_map: CodeMap::new() }
    }
}

impl vstd::std_specs::convert::FromSpecImpl<ErrorList> for ContextErrorList {
    open spec fn obeys_from_spec() -> bool {
        false
    }

    open spec fn from_spec(e: ErrorList) -> ContextErrorList {
        arbitrary()
    }
}

} // verus!
