use vstd::prelude::*;
use vstd::string::*;

verus! {

/// The character that joins a snippet id and a page id in a composite key.
pub open spec fn separator() -> char {
    '_'
}

/// The composite key of a snippet id and a page id.
pub open spec fn encode(snippet_id: Seq<char>, page_id: Seq<char>) -> Seq<char> {
    snippet_id + seq![separator()] + page_id
}

/// How many times the separator occurs in `s`.
pub open spec fn separator_count(s: Seq<char>) -> nat
    decreases s.len(),
{
    if s.len() == 0 {
        0
    } else {
        separator_count(s.drop_last()) + if s.last() == separator() {
            1nat
        } else {
            0nat
        }
    }
}

/// The position just behind the last separator of `s`, zero where `s` holds none.
pub open spec fn tail_start(s: Seq<char>) -> int
    decreases s.len(),
{
    if s.len() == 0 {
        0
    } else if s.last() == separator() {
        s.len() as int
    } else {
        tail_start(s.drop_last())
    }
}

/// The segment of `s` behind its last separator; all of `s` where it holds none.
pub open spec fn trailing_segment(s: Seq<char>) -> Seq<char> {
    s.subrange(tail_start(s), s.len() as int)
}

/// The segment of `s` before its last separator; empty where it holds none.
pub open spec fn leading_segment(s: Seq<char>) -> Seq<char> {
    if tail_start(s) == 0 {
        Seq::empty()
    } else {
        s.subrange(0, tail_start(s) - 1)
    }
}

/// A string is a composite key when it splits on the separator into exactly two segments.
pub open spec fn is_composite(s: Seq<char>) -> bool {
    separator_count(s) == 1
}

/// The two segments of a composite key, `None` for any other string.
pub open spec fn decode(s: Seq<char>) -> Option<(Seq<char>, Seq<char>)> {
    if is_composite(s) {
        Some((leading_segment(s), trailing_segment(s)))
    } else {
        None
    }
}

pub proof fn lemma_tail_start_bounds(s: Seq<char>)
    ensures
        0 <= tail_start(s) <= s.len(),
        tail_start(s) > 0 ==> s[tail_start(s) - 1] == separator(),
        tail_start(s) == 0 <==> separator_count(s) == 0,
        forall|i: int| tail_start(s) <= i < s.len() ==> s[i] != separator(),
    decreases s.len(),
{
    if s.len() > 0 {
        let init = s.drop_last();
        lemma_tail_start_bounds(init);
        assert forall|i: int| tail_start(s) <= i < s.len() implies s[i] != separator() by {
            if i < init.len() {
                assert(init[i] == s[i]);
            }
        }
    }
}

/// A composite key ends behind its last separator with the page id it was made with,
/// where that id holds no separator.
proof fn lemma_encode_tail(a: Seq<char>, b: Seq<char>)
    requires
        !b.contains(separator()),
    ensures
        tail_start(encode(a, b)) == a.len() + 1,
        separator_count(encode(a, b)) == separator_count(a) + 1,
    decreases b.len(),
{
    let s = encode(a, b);
    if b.len() == 0 {
        assert(s.last() == separator());
        assert(s.drop_last() =~= a);
    } else {
        assert(b.drop_last().contains(separator()) ==> b.contains(separator())) by {
            if b.drop_last().contains(separator()) {
                let i = choose|i: int| 0 <= i < b.drop_last().len() && b.drop_last()[i] == separator();
                assert(b[i] == separator());
            }
        }
        assert(s.drop_last() =~= encode(a, b.drop_last()));
        assert(s.last() == b.last());
        assert(b[b.len() - 1] == b.last());
        lemma_encode_tail(a, b.drop_last());
    }
}

proof fn lemma_count_none(a: Seq<char>)
    requires
        !a.contains(separator()),
    ensures
        separator_count(a) == 0,
    decreases a.len(),
{
    if a.len() > 0 {
        assert(a[a.len() - 1] == a.last());
        assert(!a.drop_last().contains(separator())) by {
            if a.drop_last().contains(separator()) {
                let i = choose|i: int| 0 <= i < a.drop_last().len() && a.drop_last()[i] == separator();
                assert(a[i] == separator());
            }
        }
        lemma_count_none(a.drop_last());
    }
}

/// Decoding gives back the two ids that a key was encoded from, where neither holds
/// the separator.
pub proof fn lemma_decode_encode(a: Seq<char>, b: Seq<char>)
    requires
        !a.contains(separator()),
        !b.contains(separator()),
    ensures
        decode(encode(a, b)) == Some((a, b)),
{
    let s = encode(a, b);
    lemma_encode_tail(a, b);
    lemma_count_none(a);
    assert(leading_segment(s) =~= a);
    assert(trailing_segment(s) =~= b);
}

/// The page id of a key is the page id it was encoded with, where that id holds no
/// separator, whatever the snippet id holds.
pub proof fn lemma_page_id_of_encode(a: Seq<char>, b: Seq<char>)
    requires
        !b.contains(separator()),
    ensures
        trailing_segment(encode(a, b)) == b,
        leading_segment(encode(a, b)) == a,
{
    lemma_encode_tail(a, b);
    assert(leading_segment(encode(a, b)) =~= a);
    assert(trailing_segment(encode(a, b)) =~= b);
}

/// On one page, different snippet ids have different keys.
pub proof fn lemma_encode_injective(a: Seq<char>, b: Seq<char>, page_id: Seq<char>)
    requires
        encode(a, page_id) == encode(b, page_id),
    ensures
        a == b,
{
    let x = encode(a, page_id);
    let y = encode(b, page_id);
    assert(x.len() == a.len() + 1 + page_id.len());
    assert(y.len() == b.len() + 1 + page_id.len());
    assert forall|i: int| 0 <= i < a.len() implies a[i] == b[i] by {
        assert(x[i] == a[i]);
        assert(y[i] == b[i]);
    }
    assert(a =~= b);
}

/// Whether `a` comes before `b` from position `i` on, given that they agree before it.
pub open spec fn precedes_from(a: Seq<char>, b: Seq<char>, i: int) -> bool
    decreases a.len() - i,
{
    if i < 0 || i >= b.len() {
        false
    } else if i >= a.len() {
        true
    } else if a[i] != b[i] {
        (a[i] as int) < (b[i] as int)
    } else {
        precedes_from(a, b, i + 1)
    }
}

/// The order of keys: lexicographic by code point, which is the order of their bytes.
pub open spec fn precedes(a: Seq<char>, b: Seq<char>) -> bool {
    precedes_from(a, b, 0)
}

proof fn lemma_precedes_from_irreflexive(a: Seq<char>, i: int)
    requires
        0 <= i,
    ensures
        !precedes_from(a, a, i),
    decreases a.len() - i,
{
    if i < a.len() {
        lemma_precedes_from_irreflexive(a, i + 1);
    }
}

proof fn lemma_precedes_from_transitive(a: Seq<char>, b: Seq<char>, c: Seq<char>, i: int)
    requires
        0 <= i,
        precedes_from(a, b, i),
        precedes_from(b, c, i),
    ensures
        precedes_from(a, c, i),
    decreases a.len() - i,
{
    if i < a.len() && a[i] == b[i] && b[i] == c[i] {
        lemma_precedes_from_transitive(a, b, c, i + 1);
    }
}

proof fn lemma_precedes_from_total(a: Seq<char>, b: Seq<char>, i: int)
    requires
        0 <= i,
        forall|j: int| 0 <= j < i && j < a.len() && j < b.len() ==> a[j] == b[j],
        i <= a.len(),
        i <= b.len(),
        !precedes_from(a, b, i),
        !precedes_from(b, a, i),
    ensures
        a =~= b,
    decreases a.len() - i,
{
    if i < a.len() && i < b.len() {
        lemma_precedes_from_total(a, b, i + 1);
    }
}

/// No key comes before itself.
pub proof fn lemma_precedes_irreflexive(a: Seq<char>)
    ensures
        !precedes(a, a),
{
    lemma_precedes_from_irreflexive(a, 0);
}

/// The order of keys is transitive.
pub proof fn lemma_precedes_transitive(a: Seq<char>, b: Seq<char>, c: Seq<char>)
    requires
        precedes(a, b),
        precedes(b, c),
    ensures
        precedes(a, c),
{
    lemma_precedes_from_transitive(a, b, c, 0);
}

/// Two keys of which neither comes before the other are the same key.
pub proof fn lemma_precedes_total(a: Seq<char>, b: Seq<char>)
    requires
        !precedes(a, b),
        !precedes(b, a),
    ensures
        a == b,
{
    lemma_precedes_from_total(a, b, 0);
}

/// The characters of `s`, in order.
pub fn chars_of(s: &str) -> (v: Vec<char>)
    ensures
        v@ == s@,
{
    let mut v: Vec<char> = Vec::new();
    for c in it: s.chars()
        invariant
            it.seq() == s@,
            v@ == s@.take(it.index() as int),
    {
        proof {
            let k = it.index() as int;
            assert(s@.take(k + 1) == s@.take(k).push(s@[k]));
        }
        v.push(c);
    }
    proof {
        assert(s@.take(s@.len() as int) == s@);
    }
    v
}

/// Decides the order of two keys given by their characters.
pub fn chars_precede(a: &Vec<char>, b: &Vec<char>) -> (r: bool)
    ensures
        r == precedes(a@, b@),
{
    let mut i: usize = 0;
    while i < a.len() && i < b.len()
        invariant
            i <= a.len(),
            i <= b.len(),
            precedes(a@, b@) == precedes_from(a@, b@, i as int),
        decreases a.len() - i,
    {
        let x: char = a[i];
        let y: char = b[i];
        if x != y {
            return x < y;
        }
        i = i + 1;
    }
    i < b.len()
}

/// A composite key: the id that a client chose for a snippet, the separator, and the id
/// of the page that owns the snippet.
pub struct SnippetKey {
    pub value: String,
}

impl View for SnippetKey {
    type V = Seq<char>;

    open spec fn view(&self) -> Seq<char> {
        self.value@
    }
}

impl Clone for SnippetKey {
    fn clone(&self) -> (copy: Self)
        ensures
            copy@ == self@,
    {
        SnippetKey { value: self.value.clone() }
    }
}

/// The length of `s` in characters, the number of its separators, and the position
/// behind the last of them.
fn scan(s: &str) -> (r: (usize, usize, usize))
    ensures
        r.0 == s@.len(),
        r.1 == separator_count(s@),
        r.2 == tail_start(s@),
{
    let total: usize = s.unicode_len();
    let mut seen: usize = 0;
    let mut count: usize = 0;
    let mut tail: usize = 0;
    for c in it: s.chars()
        invariant
            it.seq() == s@,
            total == s@.len(),
            seen == it.index(),
            count == separator_count(s@.take(it.index() as int)),
            tail == tail_start(s@.take(it.index() as int)),
            count <= seen,
            tail <= seen,
    {
        proof {
            let k = it.index() as int;
            assert(s@.take(k + 1).drop_last() == s@.take(k));
        }
        seen = seen + 1;
        if c == '_' {
            count = count + 1;
            tail = seen;
        }
    }
    proof {
        assert(s@.take(s@.len() as int) == s@);
    }
    (total, count, tail)
}

/// Returned where a string is no composite key.
#[derive(Debug)]
pub struct InvalidKey;

impl SnippetKey {
    /// Joins a snippet id and the id of the page that owns it.
    pub fn new(snippet_id: String, page_id: String) -> (key: Self)
        ensures
            key@ == encode(snippet_id@, page_id@),
    {
        proof {
            reveal_strlit("_");
            assert("_"@ =~= seq![separator()]);
        }
        let value = snippet_id.concat("_").concat(page_id.as_str());
        SnippetKey { value }
    }

    /// Accepts `s` as a key exactly when it splits on the separator into two segments.
    pub fn from_string(s: String) -> (r: Result<Self, InvalidKey>)
        ensures
            r is Ok <==> is_composite(s@),
            r matches Ok(key) ==> key@ == s@ && decode(s@) == Some(
                (leading_segment(key@), trailing_segment(key@)),
            ),
    {
        let (_, count, _) = scan(s.as_str());
        if count != 1 {
            return Err(InvalidKey);
        }
        Ok(SnippetKey { value: s })
    }

    /// The id of the page that owns the key: the segment behind the last separator.
    pub fn page_id(&self) -> (id: String)
        ensures
            id@ == trailing_segment(self@),
    {
        let (len, _, tail) = scan(self.value.as_str());
        proof {
            lemma_tail_start_bounds(self@);
        }
        String::from_str(self.value.as_str().substring_char(tail, len))
    }

    /// The client-chosen id in the key: the segment before the last separator.
    pub fn snippet_id(&self) -> (id: String)
        ensures
            id@ == leading_segment(self@),
    {
        let (_, _, tail) = scan(self.value.as_str());
        proof {
            lemma_tail_start_bounds(self@);
        }
        if tail == 0 {
            String::new()
        } else {
            String::from_str(self.value.as_str().substring_char(0, tail - 1))
        }
    }
}

} // verus!
