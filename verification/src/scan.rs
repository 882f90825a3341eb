//! Verified character scanning: finding characters and two-character
//! patterns, telling escaped from unescaped occurrences, trimming and
//! splitting on whitespace.

use vstd::prelude::*;

verus! {

/// The whitespace characters this parser recognises: the ASCII blank,
/// tab, newline, carriage return, vertical tab and form feed.
pub open spec fn is_twee_ws(c: char) -> bool {
    c == ' ' || c == '\t' || c == '\n' || c == '\r' || c == '\u{b}' || c == '\u{c}'
}

/// Whether the characters `a`, `b` stand side by side at offset `i`.
pub open spec fn pair_at(s: Seq<char>, a: char, b: char, i: int) -> bool {
    0 <= i && i + 1 < s.len() && s[i] == a && s[i + 1] == b
}

/// The first offset at or after `from` where `c` stands, if any.
pub open spec fn first_char_from(s: Seq<char>, c: char, from: int) -> Option<int>
    decreases s.len() - from,
{
    if from < 0 || from >= s.len() {
        None
    } else if s[from] == c {
        Some(from)
    } else {
        first_char_from(s, c, from + 1)
    }
}

/// The first offset at or after `from` where the pair `a`, `b` stands,
/// if any.
pub open spec fn first_pair_from(s: Seq<char>, a: char, b: char, from: int) -> Option<int>
    decreases s.len() - from,
{
    if from < 0 || from + 1 >= s.len() {
        None
    } else if s[from] == a && s[from + 1] == b {
        Some(from)
    } else {
        first_pair_from(s, a, b, from + 1)
    }
}

/// The last offset where `c` stands, or -1 if it does not occur.
pub open spec fn last_index_of(s: Seq<char>, c: char) -> int
    decreases s.len(),
{
    if s.len() == 0 {
        -1
    } else if s.last() == c {
        s.len() - 1
    } else {
        last_index_of(s.drop_last(), c)
    }
}

/// What `first_char_from` answers: the offset it returns carries `c` and
/// no earlier offset from `from` on does; `None` means no offset does.
pub proof fn lemma_first_char_from(s: Seq<char>, c: char, from: int)
    requires
        0 <= from <= s.len(),
    ensures
        (match first_char_from(s, c, from) {
            Some(i) => from <= i < s.len() && s[i] == c && (forall|j: int|
                from <= j < i ==> s[j] != c),
            None => forall|j: int| from <= j < s.len() ==> s[j] != c,
        }),
    decreases s.len() - from,
{
    if from < s.len() && s[from] != c {
        lemma_first_char_from(s, c, from + 1);
    }
}

/// What `first_pair_from` answers, in the same way.
pub proof fn lemma_first_pair_from(s: Seq<char>, a: char, b: char, from: int)
    requires
        0 <= from <= s.len(),
    ensures
        (match first_pair_from(s, a, b, from) {
            Some(i) => from <= i && pair_at(s, a, b, i) && (forall|j: int|
                from <= j < i ==> !pair_at(s, a, b, j)),
            None => forall|j: int| from <= j ==> !pair_at(s, a, b, j),
        }),
    decreases s.len() - from,
{
    if from + 1 < s.len() && !(s[from] == a && s[from + 1] == b) {
        lemma_first_pair_from(s, a, b, from + 1);
    }
}

/// What `last_index_of` answers: the offset it returns carries `c` and no
/// later offset does; -1 means no offset does.
pub proof fn lemma_last_index_of(s: Seq<char>, c: char)
    ensures
        (if last_index_of(s, c) == -1 {
            forall|j: int| 0 <= j < s.len() ==> s[j] != c
        } else {
            &&& 0 <= last_index_of(s, c) < s.len()
            &&& s[last_index_of(s, c)] == c
            &&& forall|j: int| last_index_of(s, c) < j < s.len() ==> s[j] != c
        }),
    decreases s.len(),
{
    if s.len() > 0 && s.last() != c {
        lemma_last_index_of(s.drop_last(), c);
        assert(forall|i: int| 0 <= i < s.len() - 1 ==> s[i] == s.drop_last()[i]);
    }
}

/// Finds the first occurrence of `c` at or after `from`.
pub fn find_char_from(s: &str, c: char, from: usize) -> (r: Option<usize>)
    requires
        from <= s@.len(),
    ensures
        (match r {
            Some(i) => first_char_from(s@, c, from as int) == Some(i as int),
            None => first_char_from(s@, c, from as int) is None,
        }),
{
    let n = s.unicode_len();
    let mut i = from;
    while i < n
        invariant
            from <= i <= n,
            n == s@.len(),
            first_char_from(s@, c, from as int) == first_char_from(s@, c, i as int),
        decreases n - i,
    {
        if s.get_char(i) == c {
            return Some(i);
        }
        i += 1;
    }
    None
}

/// Finds the first occurrence of the pair `a`, `b` at or after `from`.
pub fn find_pair_from(s: &str, a: char, b: char, from: usize) -> (r: Option<usize>)
    requires
        from <= s@.len(),
    ensures
        (match r {
            Some(i) => first_pair_from(s@, a, b, from as int) == Some(i as int),
            None => first_pair_from(s@, a, b, from as int) is None,
        }),
{
    let n = s.unicode_len();
    let mut i = from;
    while i < n
        invariant
            from <= i <= n,
            n == s@.len(),
            first_pair_from(s@, a, b, from as int) == first_pair_from(s@, a, b, i as int),
        decreases n - i,
    {
        if i + 1 >= n {
            return None;
        }
        if s.get_char(i) == a && s.get_char(i + 1) == b {
            return Some(i);
        }
        i += 1;
    }
    None
}

/// Finds the last occurrence of `c`, if any.
pub fn rfind_char(s: &str, c: char) -> (r: Option<usize>)
    ensures
        (match r {
            Some(i) => last_index_of(s@, c) == i as int,
            None => last_index_of(s@, c) == -1,
        }),
{
    let n = s.unicode_len();
    proof {
        assert(s@.take(n as int) =~= s@);
    }
    let mut i = n;
    while i > 0
        invariant
            i <= n,
            n == s@.len(),
            last_index_of(s@, c) == last_index_of(s@.take(i as int), c),
        decreases i,
    {
        i -= 1;
        let ch = s.get_char(i);
        proof {
            assert(s@.take(i as int + 1).drop_last() =~= s@.take(i as int));
            assert(s@.take(i as int + 1).last() == s@[i as int]);
        }
        if ch == c {
            return Some(i);
        }
    }
    proof {
        assert(s@.take(0) =~= Seq::<char>::empty());
    }
    None
}

} // verus!

verus! {

/// `c` stands unescaped at offset `i`: no backslash immediately before it.
pub open spec fn unescaped_at(s: Seq<char>, c: char, i: int) -> bool {
    &&& 0 <= i < s.len()
    &&& s[i] == c
    &&& (i == 0 || s[i - 1] != '\\')
}

/// A backslash at offset `i` escapes a `c` right after it.
pub open spec fn escaped_at(s: Seq<char>, c: char, i: int) -> bool {
    &&& 0 <= i
    &&& i + 1 < s.len()
    &&& s[i] == '\\'
    &&& s[i + 1] == c
}

/// The ascending offsets of every unescaped occurrence of `c` in `s`.
pub open spec fn unescaped_in(s: Seq<char>, c: char) -> Seq<int>
    decreases s.len(),
{
    if s.len() == 0 {
        Seq::empty()
    } else {
        let pre = unescaped_in(s.drop_last(), c);
        if unescaped_at(s, c, s.len() - 1) {
            pre.push(s.len() - 1)
        } else {
            pre
        }
    }
}

/// The ascending offsets of every backslash in `s` that escapes a `c`.
pub open spec fn escaped_in(s: Seq<char>, c: char) -> Seq<int>
    decreases s.len(),
{
    if s.len() < 2 {
        Seq::empty()
    } else {
        let pre = escaped_in(s.drop_last(), c);
        if escaped_at(s, c, s.len() - 2) {
            pre.push(s.len() - 2)
        } else {
            pre
        }
    }
}

/// The shape of `unescaped_in`: ascending, made of exactly the offsets at
/// which `c` stands unescaped.
pub proof fn lemma_unescaped_in(s: Seq<char>, c: char)
    ensures
        forall|k: int|
            0 <= k < unescaped_in(s, c).len() ==> unescaped_at(s, c, #[trigger] unescaped_in(s, c)[k]),
        forall|i: int| unescaped_at(s, c, i) ==> unescaped_in(s, c).contains(i),
        forall|k1: int, k2: int|
            0 <= k1 < k2 < unescaped_in(s, c).len() ==> unescaped_in(s, c)[k1] < unescaped_in(
                s,
                c,
            )[k2],
    decreases s.len(),
{
    if s.len() > 0 {
        let pre = s.drop_last();
        lemma_unescaped_in(pre, c);
        assert(forall|i: int| 0 <= i < pre.len() ==> pre[i] == s[i]);
        assert(forall|i: int| unescaped_at(pre, c, i) <==> (unescaped_at(s, c, i) && i < s.len()
            - 1));
        let u = unescaped_in(s, c);
        let up = unescaped_in(pre, c);
        assert forall|i: int| unescaped_at(s, c, i) implies u.contains(i) by {
            if i < s.len() - 1 {
                assert(up.contains(i));
                let k = choose|k: int| 0 <= k < up.len() && up[k] == i;
                assert(u[k] == i);
            } else {
                assert(u[u.len() - 1] == i);
            }
        }
    }
}

/// The shape of `escaped_in`, in the same way.
pub proof fn lemma_escaped_in(s: Seq<char>, c: char)
    ensures
        forall|k: int|
            0 <= k < escaped_in(s, c).len() ==> escaped_at(s, c, #[trigger] escaped_in(s, c)[k]),
        forall|i: int| escaped_at(s, c, i) ==> escaped_in(s, c).contains(i),
        forall|k1: int, k2: int|
            0 <= k1 < k2 < escaped_in(s, c).len() ==> escaped_in(s, c)[k1] < escaped_in(s, c)[k2],
    decreases s.len(),
{
    if s.len() >= 2 {
        let pre = s.drop_last();
        lemma_escaped_in(pre, c);
        assert(forall|i: int| 0 <= i < pre.len() ==> pre[i] == s[i]);
        assert(forall|i: int| escaped_at(pre, c, i) <==> (escaped_at(s, c, i) && i < s.len() - 2));
        let u = escaped_in(s, c);
        let up = escaped_in(pre, c);
        assert forall|i: int| escaped_at(s, c, i) implies u.contains(i) by {
            if i < s.len() - 2 {
                assert(up.contains(i));
                let k = choose|k: int| 0 <= k < up.len() && up[k] == i;
                assert(u[k] == i);
            } else {
                assert(u[u.len() - 1] == i);
            }
        }
    }
}

/// The offset of the last occurrence of `c`, if that occurrence is
/// unescaped; `None` both when `c` does not occur and when its last
/// occurrence is escaped.
pub open spec fn last_unescaped(s: Seq<char>, c: char) -> Option<int> {
    let li = last_index_of(s, c);
    if li == -1 {
        None
    } else if li == 0 || s[li - 1] != '\\' {
        Some(li)
    } else {
        None
    }
}

/// Finds every unescaped occurrence of `c`, in ascending order.
pub fn find_all_unescaped(s: &str, c: char) -> (v: Vec<usize>)
    ensures
        v@.map_values(|x: usize| x as int) == unescaped_in(s@, c),
{
    let n = s.unicode_len();
    let mut v: Vec<usize> = Vec::new();
    proof {
        assert(s@.take(0) =~= Seq::<char>::empty());
        assert(v@.map_values(|x: usize| x as int) =~= unescaped_in(s@.take(0), c));
    }
    let mut i: usize = 0;
    while i < n
        invariant
            i <= n,
            n == s@.len(),
            v@.map_values(|x: usize| x as int) == unescaped_in(s@.take(i as int), c),
        decreases n - i,
    {
        let cur = s.get_char(i);
        let hit = cur == c && (i == 0 || s.get_char(i - 1) != '\\');
        proof {
            assert(s@.take(i as int + 1).drop_last() =~= s@.take(i as int));
            assert(s@.take(i as int + 1).last() == s@[i as int]);
            assert(unescaped_at(s@.take(i as int + 1), c, i as int) <==> hit);
        }
        if hit {
            v.push(i);
            proof {
                assert(v@.map_values(|x: usize| x as int) =~= unescaped_in(
                    s@.take(i as int),
                    c,
                ).push(i as int));
            }
        }
        i += 1;
    }
    proof {
        assert(s@.take(n as int) =~= s@);
    }
    v
}

/// Finds every backslash that escapes a `c`, in ascending order.
pub fn find_all_escaped(s: &str, c: char) -> (v: Vec<usize>)
    ensures
        v@.map_values(|x: usize| x as int) == escaped_in(s@, c),
{
    let n = s.unicode_len();
    let mut v: Vec<usize> = Vec::new();
    if n < 2 {
        return v;
    }
    proof {
        assert(v@.map_values(|x: usize| x as int) =~= escaped_in(s@.take(1), c));
    }
    let mut i: usize = 1;
    while i < n
        invariant
            1 <= i <= n,
            2 <= n,
            n == s@.len(),
            v@.map_values(|x: usize| x as int) == escaped_in(s@.take(i as int), c),
        decreases n - i,
    {
        let hit = s.get_char(i - 1) == '\\' && s.get_char(i) == c;
        proof {
            assert(s@.take(i as int + 1).drop_last() =~= s@.take(i as int));
            assert(s@.take(i as int + 1).last() == s@[i as int]);
            assert(s@.take(i as int + 1)[i as int - 1] == s@[i as int - 1]);
            assert(escaped_at(s@.take(i as int + 1), c, i as int - 1) <==> hit);
        }
        if hit {
            v.push(i - 1);
            proof {
                assert(v@.map_values(|x: usize| x as int) =~= escaped_in(
                    s@.take(i as int),
                    c,
                ).push(i as int - 1));
            }
        }
        i += 1;
    }
    proof {
        assert(s@.take(n as int) =~= s@);
    }
    v
}

/// Finds the last occurrence of `c` if it is unescaped.
pub fn find_last_unescaped(s: &str, c: char) -> (r: Option<usize>)
    ensures
        (match r {
            Some(i) => last_unescaped(s@, c) == Some(i as int),
            None => last_unescaped(s@, c) is None,
        }),
{
    proof {
        lemma_last_index_of(s@, c);
    }
    match rfind_char(s, c) {
        None => None,
        Some(i) => {
            if i == 0 || s.get_char(i - 1) != '\\' {
                Some(i)
            } else {
                None
            }
        },
    }
}

} // verus!

verus! {

/// Whether this character is one the parser treats as whitespace.
pub fn char_is_ws(c: char) -> (r: bool)
    ensures
        r == is_twee_ws(c),
{
    c == ' ' || c == '\t' || c == '\n' || c == '\r' || c == '\u{b}' || c == '\u{c}'
}

/// `s` without its leading whitespace.
pub open spec fn trim_start_spec(s: Seq<char>) -> Seq<char>
    decreases s.len(),
{
    if s.len() > 0 && is_twee_ws(s[0]) {
        trim_start_spec(s.subrange(1, s.len() as int))
    } else {
        s
    }
}

/// `s` without its trailing whitespace.
pub open spec fn trim_end_spec(s: Seq<char>) -> Seq<char>
    decreases s.len(),
{
    if s.len() > 0 && is_twee_ws(s.last()) {
        trim_end_spec(s.drop_last())
    } else {
        s
    }
}

/// `s` without leading and trailing whitespace.
pub open spec fn trim_spec(s: Seq<char>) -> Seq<char> {
    trim_end_spec(trim_start_spec(s))
}

/// If everything before `a` is whitespace and `a` is not past a
/// non-whitespace character, trimming the start drops exactly `a`
/// characters.
pub(crate) proof fn lemma_trim_start_at(s: Seq<char>, a: int)
    requires
        0 <= a <= s.len(),
        forall|j: int| 0 <= j < a ==> is_twee_ws(s[j]),
        a < s.len() ==> !is_twee_ws(s[a]),
    ensures
        trim_start_spec(s) == s.subrange(a, s.len() as int),
    decreases a,
{
    if a == 0 {
        if s.len() == 0 || !is_twee_ws(s[0]) {
            assert(s.subrange(0, s.len() as int) =~= s);
        } else {
            assert(false);
        }
    } else {
        let t = s.subrange(1, s.len() as int);
        lemma_trim_start_at(t, a - 1);
        assert(t.subrange(a - 1, t.len() as int) =~= s.subrange(a, s.len() as int));
    }
}

/// If everything from `b` on is whitespace and `b` is not before a
/// non-whitespace character, trimming the end keeps exactly `b`
/// characters.
proof fn lemma_trim_end_at(s: Seq<char>, b: int)
    requires
        0 <= b <= s.len(),
        forall|j: int| b <= j < s.len() ==> is_twee_ws(s[j]),
        b > 0 ==> !is_twee_ws(s[b - 1]),
    ensures
        trim_end_spec(s) == s.subrange(0, b),
    decreases s.len(),
{
    if b == s.len() {
        if s.len() == 0 || !is_twee_ws(s.last()) {
            assert(s.subrange(0, s.len() as int) =~= s);
        } else {
            assert(false);
        }
    } else {
        let t = s.drop_last();
        assert(forall|j: int| 0 <= j < t.len() ==> t[j] == s[j]);
        lemma_trim_end_at(t, b);
        assert(t.subrange(0, b) =~= s.subrange(0, b));
    }
}

/// The offset of the first character of `s` that is not whitespace, or
/// the length of `s` if every character is.
pub(crate) fn first_non_ws(s: &str) -> (a: usize)
    ensures
        a <= s@.len(),
        forall|j: int| 0 <= j < a ==> is_twee_ws(s@[j]),
        a < s@.len() ==> !is_twee_ws(s@[a as int]),
{
    let n = s.unicode_len();
    let mut a: usize = 0;
    while a < n
        invariant
            a <= n,
            n == s@.len(),
            forall|j: int| 0 <= j < a ==> is_twee_ws(s@[j]),
        decreases n - a,
    {
        if !char_is_ws(s.get_char(a)) {
            return a;
        }
        a += 1;
    }
    a
}

/// One past the offset of the last character of `s` that is not
/// whitespace, given that the character at `a` is not.
fn last_non_ws_end(s: &str, a: usize) -> (b: usize)
    requires
        a < s@.len(),
        !is_twee_ws(s@[a as int]),
    ensures
        a < b <= s@.len(),
        !is_twee_ws(s@[b as int - 1]),
        forall|j: int| b <= j < s@.len() ==> is_twee_ws(s@[j]),
{
    let n = s.unicode_len();
    let mut b: usize = n;
    while b > a
        invariant
            a <= b <= n,
            n == s@.len(),
            a < n,
            !is_twee_ws(s@[a as int]),
            forall|j: int| b <= j < n ==> is_twee_ws(s@[j]),
        decreases b,
    {
        if !char_is_ws(s.get_char(b - 1)) {
            return b;
        }
        b -= 1;
    }
    proof {
        assert(is_twee_ws(s@[a as int]));
    }
    b
}

/// Trims the parser's whitespace from both ends of `s`.
pub fn trim_str(s: &str) -> (r: &str)
    ensures
        r@ == trim_spec(s@),
{
    let n = s.unicode_len();
    let a = first_non_ws(s);
    proof {
        lemma_trim_start_at(s@, a as int);
    }
    if a == n {
        proof {
            assert(s@.subrange(a as int, n as int) =~= Seq::<char>::empty());
            assert(trim_end_spec(Seq::<char>::empty()) =~= Seq::<char>::empty());
        }
        return s.substring_char(n, n);
    }
    let b = last_non_ws_end(s, a);
    proof {
        let t = s@.subrange(a as int, n as int);
        assert(b > a);
        assert(!is_twee_ws(s@[b as int - 1]));
        assert(forall|j: int| b - a <= j < t.len() ==> t[j] == s@[j + a]);
        lemma_trim_end_at(t, b as int - a as int);
        assert(t.subrange(0, b as int - a as int) =~= s@.subrange(a as int, b as int));
    }
    s.substring_char(a, b)
}

/// Relies on String::push: appends one character to the string.
#[verifier::external_body]
pub(crate) fn push_char(s: &mut String, c: char)
    ensures
        final(s)@ == old(s)@.push(c),
{
    s.push(c);
}

/// `s` with every backslash removed.
pub open spec fn without_backslashes(s: Seq<char>) -> Seq<char> {
    s.filter(|c: char| c != '\\')
}

/// Removes every backslash from `s`.
pub fn remove_backslashes(s: &str) -> (r: String)
    ensures
        r@ == without_backslashes(s@),
{
    let n = s.unicode_len();
    let mut r = String::new();
    proof {
        reveal(Seq::filter);
        assert(s@.take(0) =~= Seq::<char>::empty());
        assert(r@ =~= without_backslashes(s@.take(0)));
    }
    let mut i: usize = 0;
    while i < n
        invariant
            i <= n,
            n == s@.len(),
            r@ == without_backslashes(s@.take(i as int)),
        decreases n - i,
    {
        let c = s.get_char(i);
        proof {
            reveal(Seq::filter);
            assert(s@.take(i as int + 1).drop_last() =~= s@.take(i as int));
            assert(s@.take(i as int + 1).last() == s@[i as int]);
        }
        if c != '\\' {
            push_char(&mut r, c);
        }
        i += 1;
    }
    proof {
        assert(s@.take(n as int) =~= s@);
    }
    r
}

} // verus!

verus! {

/// The first offset at or after `from` holding whitespace, if any.
pub open spec fn first_ws_from(s: Seq<char>, from: int) -> Option<int>
    decreases s.len() - from,
{
    if from < 0 || from >= s.len() {
        None
    } else if is_twee_ws(s[from]) {
        Some(from)
    } else {
        first_ws_from(s, from + 1)
    }
}

/// What `first_ws_from` answers: the offset it returns holds whitespace
/// and no earlier offset from `from` on does; `None` means none does.
pub proof fn lemma_first_ws_from(s: Seq<char>, from: int)
    requires
        0 <= from <= s.len(),
    ensures
        (match first_ws_from(s, from) {
            Some(i) => from <= i < s.len() && is_twee_ws(s[i]) && (forall|j: int|
                from <= j < i ==> !is_twee_ws(s[j])),
            None => forall|j: int| from <= j < s.len() ==> !is_twee_ws(s[j]),
        }),
    decreases s.len() - from,
{
    if from < s.len() && !is_twee_ws(s[from]) {
        lemma_first_ws_from(s, from + 1);
    }
}

/// Where the token starting at offset 0 ends: at the first whitespace, or
/// at the end of `s`.
pub open spec fn token_end(s: Seq<char>) -> int {
    match first_ws_from(s, 0) {
        Some(k) => k,
        None => s.len() as int,
    }
}

/// The words of `s`: its maximal runs of non-whitespace characters, in
/// order.
pub open spec fn split_ws(s: Seq<char>) -> Seq<Seq<char>>
    decreases s.len(),
    via split_ws_decreases
{
    if s.len() == 0 {
        Seq::empty()
    } else if is_twee_ws(s[0]) {
        split_ws(s.subrange(1, s.len() as int))
    } else {
        seq![s.subrange(0, token_end(s))] + split_ws(s.subrange(token_end(s), s.len() as int))
    }
}

#[via_fn]
proof fn split_ws_decreases(s: Seq<char>) {
    if s.len() > 0 && !is_twee_ws(s[0]) {
        lemma_first_ws_from(s, 0);
    }
}

/// Finds the first whitespace character at or after `from`.
pub fn find_ws_from(s: &str, from: usize) -> (r: Option<usize>)
    requires
        from <= s@.len(),
    ensures
        (match r {
            Some(i) => first_ws_from(s@, from as int) == Some(i as int),
            None => first_ws_from(s@, from as int) is None,
        }),
{
    let n = s.unicode_len();
    let mut i = from;
    while i < n
        invariant
            from <= i <= n,
            n == s@.len(),
            first_ws_from(s@, from as int) == first_ws_from(s@, i as int),
        decreases n - i,
    {
        if char_is_ws(s.get_char(i)) {
            return Some(i);
        }
        i += 1;
    }
    None
}

/// Splits `s` into its whitespace-separated words.
pub fn split_whitespace_str(s: &str) -> (v: Vec<String>)
    ensures
        v@.map_values(|t: String| t@) == split_ws(s@),
{
    let n = s.unicode_len();
    let mut v: Vec<String> = Vec::new();
    proof {
        assert(s@.subrange(0, n as int) =~= s@);
        assert(v@.map_values(|t: String| t@) =~= Seq::<Seq<char>>::empty());
    }
    let mut i: usize = 0;
    while i < n
        invariant
            i <= n,
            n == s@.len(),
            split_ws(s@) == v@.map_values(|t: String| t@) + split_ws(
                s@.subrange(i as int, n as int),
            ),
        decreases n - i,
    {
        let ghost rem = s@.subrange(i as int, n as int);
        proof {
            assert(rem[0] == s@[i as int]);
        }
        let c = s.get_char(i);
        if char_is_ws(c) {
            proof {
                assert(rem.subrange(1, rem.len() as int) =~= s@.subrange(i as int + 1, n as int));
            }
            i += 1;
        } else {
            let k = match find_ws_from(s, i) {
                Some(k) => k,
                None => n,
            };
            proof {
                lemma_first_ws_from(s@, i as int);
                lemma_first_ws_from(rem, 0);
                assert(forall|j: int| 0 <= j < rem.len() ==> rem[j] == s@[i + j]);
                assert(token_end(rem) == k - i) by {
                    match first_ws_from(rem, 0) {
                        Some(t) => {
                            assert(is_twee_ws(s@[i + t]));
                            assert(first_ws_from(s@, i as int) == Some(k as int));
                            assert(i <= i + t);
                            assert(!(i + t < k));
                            assert(!(k - i < t)) by {
                                if k - i < t {
                                    assert(is_twee_ws(rem[k - i]));
                                }
                            }
                        },
                        None => {
                            if (k as int) < n as int {
                                assert(is_twee_ws(s@[k as int]));
                                assert(is_twee_ws(rem[k - i]));
                            }
                        },
                    }
                }
            }
            let tok = s.substring_char(i, k).to_owned();
            v.push(tok);
            proof {
                let tail = s@.subrange(k as int, n as int);
                assert(rem.subrange(0, k - i) =~= s@.subrange(i as int, k as int));
                assert(rem.subrange(k - i, rem.len() as int) =~= tail);
                assert(split_ws(rem) == seq![tok@] + split_ws(tail));
                assert(v@.map_values(|t: String| t@) =~= v@.map_values(
                    |t: String| t@,
                ).drop_last().push(tok@));
                assert(v@.map_values(|t: String| t@).drop_last() + (seq![tok@] + split_ws(tail))
                    =~= v@.map_values(|t: String| t@) + split_ws(tail));
            }
            i = k;
        }
    }
    proof {
        assert(s@.subrange(n as int, n as int) =~= Seq::<char>::empty());
        assert(v@.map_values(|t: String| t@) + Seq::<Seq<char>>::empty() =~= v@.map_values(
            |t: String| t@,
        ));
    }
    v
}

} // verus!

verus! {

/// Relies on `str`'s `PartialEq`: two string slices are equal exactly
/// when their characters are.
#[verifier::external_body]
pub fn str_eq(a: &str, b: &str) -> (r: bool)
    ensures
        r == (a@ == b@),
{
    a == b
}

} // verus!
