//! Text as sequences of characters: what the library needs of strings, with
//! each operation stated over the characters it reads and writes.
use vstd::prelude::*;

verus! {

/// The texts of a sequence of strings.
pub open spec fn texts(s: Seq<String>) -> Seq<Seq<char>> {
    s.map_values(|t: String| t@)
}

/// Whether a list begins with another: that one has been kept.
#[verifier::opaque]
pub open spec fn keeps(before: Seq<Seq<char>>, after: Seq<Seq<char>>) -> bool {
    before.len() <= after.len() && after.take(before.len() as int) == before
}

/// A list is kept by itself, by what is appended to it, and by what keeps that.
pub proof fn lemma_keeps(before: Seq<Seq<char>>)
    ensures
        keeps(before, before),
        forall|more: Seq<Seq<char>>| keeps(before, #[trigger] (before + more)),
        forall|b: Seq<Seq<char>>, c: Seq<Seq<char>>|
            #![trigger keeps(before, b), keeps(b, c)]
            keeps(before, b) && keeps(b, c) ==> keeps(before, c),
{
    reveal(keeps);
    assert(before.take(before.len() as int) =~= before);
    assert forall|more: Seq<Seq<char>>| keeps(before, #[trigger] (before + more)) by {
        assert((before + more).take(before.len() as int) =~= before);
    }
    assert forall|b: Seq<Seq<char>>, c: Seq<Seq<char>>|
        #![trigger keeps(before, b), keeps(b, c)]
        keeps(before, b) && keeps(b, c) implies keeps(before, c) by {
        assert(c.take(before.len() as int) =~= b.take(before.len() as int));
    }
}

pub proof fn lemma_texts_push(s: Seq<String>, t: String)
    ensures
        texts(s.push(t)) == texts(s).push(t@),
{
    assert(texts(s.push(t)) =~= texts(s).push(t@));
}

pub proof fn lemma_texts_add(s: Seq<String>, t: Seq<String>)
    ensures
        texts(s + t) == texts(s) + texts(t),
{
    assert(texts(s + t) =~= texts(s) + texts(t));
}

/// `String::push`: the character goes to the end, the rest stays.
pub assume_specification[ std::string::String::push ](s: &mut std::string::String, c: char)
    ensures
        final(s)@ == old(s)@.push(c),
;

/// The characters of a text, in order.
pub fn chars_of(s: &str) -> (v: Vec<char>)
    ensures
        v@ == s@,
{
    let mut v: Vec<char> = Vec::new();
    for c in it: s.chars()
        invariant
            v@ == it.seq().take(it.index()),
            it.seq() == s@,
    {
        v.push(c);
        assert(it.seq().take(it.index() + 1) =~= it.seq().take(it.index()).push(c));
    }
    assert(s@.take(s@.len() as int) =~= s@);
    v
}

/// The text between two positions of a list of characters.
pub fn slice_text(v: &Vec<char>, from: usize, to: usize) -> (s: String)
    requires
        from <= to <= v@.len(),
    ensures
        s@ == v@.subrange(from as int, to as int),
{
    let mut s = String::new();
    let mut i: usize = from;
    while i < to
        invariant
            from <= i <= to <= v@.len(),
            s@ == v@.subrange(from as int, i as int),
        decreases to - i,
    {
        s.push(v[i]);
        assert(v@.subrange(from as int, i + 1) =~= v@.subrange(from as int, i as int).push(v@[i as int]));
        i = i + 1;
    }
    s
}

/// Whether two texts are the same.
pub fn same_text(a: &str, b: &str) -> (r: bool)
    ensures
        r == (a@ == b@),
{
    let x = a.to_owned();
    let y = b.to_owned();
    x == y
}

/// Appends a text to a list of texts.
pub fn push_text(v: &mut Vec<String>, s: String)
    ensures
        final(v)@ == old(v)@.push(s),
        texts(final(v)@) == texts(old(v)@).push(s@),
{
    proof {
        lemma_texts_push(v@, s);
    }
    v.push(s);
}

pub fn clone_texts(v: &Vec<String>) -> (r: Vec<String>)
    ensures
        texts(r@) == texts(v@),
        r@ == v@,
{
    let mut r: Vec<String> = Vec::new();
    for i in 0..v.len()
        invariant
            r@ == v@.take(i as int),
    {
        r.push(v[i].clone());
        assert(v@.take(i + 1) =~= v@.take(i as int).push(v@[i as int]));
    }
    assert(v@.take(v@.len() as int) =~= v@);
    r
}

/// `a` followed by `b`.
pub fn concat_texts(a: &Vec<String>, b: &Vec<String>) -> (r: Vec<String>)
    ensures
        r@ == a@ + b@,
        texts(r@) == texts(a@) + texts(b@),
{
    let mut r = clone_texts(a);
    let mut tail = clone_texts(b);
    r.append(&mut tail);
    proof {
        lemma_texts_add(a@, b@);
    }
    r
}

// ── Joining ──────────────────────────────────────────────────────────────────

/// The parts in order, with the separator between neighbours.
pub open spec fn join_spec(parts: Seq<Seq<char>>, sep: Seq<char>) -> Seq<char>
    decreases parts.len(),
{
    if parts.len() == 0 {
        Seq::empty()
    } else if parts.len() == 1 {
        parts[0]
    } else {
        join_spec(parts.drop_last(), sep) + sep + parts.last()
    }
}

pub fn join(parts: &Vec<String>, sep: &str) -> (r: String)
    ensures
        r@ == join_spec(texts(parts@), sep@),
{
    let mut r = String::new();
    for i in 0..parts.len()
        invariant
            r@ == join_spec(texts(parts@).take(i as int), sep@),
    {
        proof {
            let now = texts(parts@).take(i as int);
            let next = texts(parts@).take(i + 1);
            assert(next.drop_last() =~= now);
            assert(next.last() == parts@[i as int]@);
        }
        if i == 0 {
            r = parts[i].clone();
        } else {
            r.append(sep);
            r.append(parts[i].as_str());
        }
    }
    assert(texts(parts@).take(parts@.len() as int) =~= texts(parts@));
    r
}

// ── Searching ────────────────────────────────────────────────────────────────

pub open spec fn starts_with_spec(s: Seq<char>, p: Seq<char>) -> bool {
    p.len() <= s.len() && s.take(p.len() as int) == p
}

/// Whether `p` stands in `s` at position `i`.
pub open spec fn occurs_at(s: Seq<char>, p: Seq<char>, i: int) -> bool {
    0 <= i && i + p.len() <= s.len() && s.subrange(i, i + p.len()) == p
}

pub open spec fn contains_spec(s: Seq<char>, p: Seq<char>) -> bool {
    exists|i: int| occurs_at(s, p, i)
}

/// Whether `p` stands in `s` at position `at`.
pub fn matches_at(s: &Vec<char>, p: &Vec<char>, at: usize) -> (r: bool)
    requires
        at <= s@.len(),
    ensures
        r == occurs_at(s@, p@, at as int),
{
    let n: usize = s.len();
    if p.len() > n - at {
        return false;
    }
    for k in 0..p.len()
        invariant
            at + p@.len() <= n,
            n == s@.len(),
            forall|j: int| 0 <= j < k ==> s@[at + j] == p@[j],
    {
        if s[at + k] != p[k] {
            assert(s@.subrange(at as int, at + p@.len())[k as int] != p@[k as int]);
            return false;
        }
    }
    assert(s@.subrange(at as int, at + p@.len()) =~= p@);
    true
}

pub fn starts_with(s: &str, p: &str) -> (r: bool)
    ensures
        r == starts_with_spec(s@, p@),
{
    let sv = chars_of(s);
    let pv = chars_of(p);
    let r = matches_at(&sv, &pv, 0);
    assert(p@.len() <= s@.len() ==> s@.subrange(0, p@.len() as int) =~= s@.take(p@.len() as int));
    r
}

pub open spec fn starts_with_char_spec(s: Seq<char>, c: char) -> bool {
    s.len() > 0 && s[0] == c
}

pub fn starts_with_char(s: &str, c: char) -> (r: bool)
    ensures
        r == starts_with_char_spec(s@, c),
{
    s.unicode_len() > 0 && s.get_char(0) == c
}

pub fn contains(s: &str, p: &str) -> (r: bool)
    ensures
        r == contains_spec(s@, p@),
{
    let sv = chars_of(s);
    let pv = chars_of(p);
    if pv.len() > sv.len() {
        return false;
    }
    let last: usize = sv.len() - pv.len();
    let mut i: usize = 0;
    while i <= last
        invariant
            sv@ == s@,
            pv@ == p@,
            last == sv@.len() - pv@.len(),
            i <= last + 1,
            forall|j: int| 0 <= j < i ==> !occurs_at(s@, p@, j),
        decreases last + 1 - i,
    {
        if matches_at(&sv, &pv, i) {
            assert(occurs_at(s@, p@, i as int));
            return true;
        }
        if i == last {
            assert forall|j: int| !occurs_at(s@, p@, j) by {}
            return false;
        }
        i = i + 1;
    }
    false
}

/// Whether any of the texts contains `p`.
pub open spec fn any_contains_spec(parts: Seq<Seq<char>>, p: Seq<char>) -> bool {
    exists|i: int| 0 <= i < parts.len() && contains_spec(#[trigger] parts[i], p)
}

pub fn any_contains(parts: &Vec<String>, p: &str) -> (r: bool)
    ensures
        r == any_contains_spec(texts(parts@), p@),
{
    for i in 0..parts.len()
        invariant
            forall|j: int| 0 <= j < i ==> !contains_spec(#[trigger] texts(parts@)[j], p@),
    {
        if contains(parts[i].as_str(), p) {
            assert(texts(parts@)[i as int] == parts@[i as int]@);
            return true;
        }
    }
    false
}

pub open spec fn has_char(s: Seq<char>, c: char) -> bool {
    exists|i: int| 0 <= i < s.len() && s[i] == c
}

pub fn contains_char(s: &str, c: char) -> (r: bool)
    ensures
        r == has_char(s@, c),
{
    let v = chars_of(s);
    for i in 0..v.len()
        invariant
            v@ == s@,
            forall|j: int| 0 <= j < i ==> s@[j] != c,
    {
        if v[i] == c {
            assert(s@[i as int] == c);
            return true;
        }
    }
    false
}

/// Whether the list holds the text.
pub open spec fn lists(names: Seq<Seq<char>>, name: Seq<char>) -> bool {
    exists|i: int| 0 <= i < names.len() && #[trigger] names[i] == name
}

pub fn list_has(names: &Vec<String>, name: &str) -> (r: bool)
    ensures
        r == lists(texts(names@), name@),
{
    for i in 0..names.len()
        invariant
            forall|j: int| 0 <= j < i ==> #[trigger] texts(names@)[j] != name@,
    {
        if same_text(names[i].as_str(), name) {
            assert(texts(names@)[i as int] == name@);
            return true;
        }
    }
    false
}

// ── Letter case ──────────────────────────────────────────────────────────────

/// The lower-case form of an ASCII letter; any other character itself.
pub open spec fn lower(c: char) -> char {
    if 'A' <= c <= 'Z' {
        (c as int + 32) as char
    } else {
        c
    }
}

pub open spec fn lower_text(s: Seq<char>) -> Seq<char> {
    s.map_values(|c: char| lower(c))
}

/// Whether two texts are the same up to the case of ASCII letters.
pub open spec fn same_ignoring_case(a: Seq<char>, b: Seq<char>) -> bool {
    lower_text(a) == lower_text(b)
}

pub fn to_ascii_lowercase(s: &str) -> (r: String)
    ensures
        r@ == lower_text(s@),
{
    let v = chars_of(s);
    let mut r = String::new();
    for i in 0..v.len()
        invariant
            v@ == s@,
            r@ == lower_text(s@.take(i as int)),
    {
        let c = v[i];
        if 'A' <= c && c <= 'Z' {
            r.push((c as u8 + 32) as char);
        } else {
            r.push(c);
        }
        assert(lower_text(s@.take(i + 1)) =~= lower_text(s@.take(i as int)).push(lower(c)));
    }
    assert(s@.take(s@.len() as int) =~= s@);
    r
}

pub fn eq_ignore_ascii_case(a: &str, b: &str) -> (r: bool)
    ensures
        r == same_ignoring_case(a@, b@),
{
    let x = to_ascii_lowercase(a);
    let y = to_ascii_lowercase(b);
    x == y
}

// ── Replacing ────────────────────────────────────────────────────────────────

/// `s` with every occurrence of `from`, taken from the left and without overlap,
/// replaced by `to`.
pub open spec fn replace_spec(s: Seq<char>, from: Seq<char>, to: Seq<char>) -> Seq<char>
    decreases s.len(),
{
    if from.len() == 0 || s.len() < from.len() {
        s
    } else if starts_with_spec(s, from) {
        to + replace_spec(s.skip(from.len() as int), from, to)
    } else {
        seq![s[0]] + replace_spec(s.skip(1), from, to)
    }
}

pub fn replace(s: &str, from: &str, to: &str) -> (r: String)
    requires
        from@.len() > 0,
    ensures
        r@ == replace_spec(s@, from@, to@),
{
    let sv = chars_of(s);
    let fv = chars_of(from);
    let mut r = String::new();
    let mut i: usize = 0;
    assert(s@.skip(0) =~= s@);
    while i < sv.len() && sv.len() - i >= fv.len()
        invariant
            sv@ == s@,
            fv@ == from@,
            from@.len() > 0,
            i <= sv@.len(),
            r@ + replace_spec(s@.skip(i as int), from@, to@) == replace_spec(s@, from@, to@),
        decreases sv@.len() - i,
    {
        let ghost rest = s@.skip(i as int);
        if matches_at(&sv, &fv, i) {
            assert(rest.take(from@.len() as int) =~= s@.subrange(i as int, i + from@.len()));
            assert(rest.skip(from@.len() as int) =~= s@.skip(i + from@.len()));
            let ghost before = r@;
            r.append(to);
            assert(r@ + replace_spec(s@.skip(i + from@.len()), from@, to@)
                =~= before + replace_spec(rest, from@, to@));
            i = i + fv.len();
        } else {
            assert(rest.take(from@.len() as int) =~= s@.subrange(i as int, i + from@.len()));
            assert(rest.skip(1) =~= s@.skip(i + 1));
            let ghost before = r@;
            r.push(sv[i]);
            assert(r@ + replace_spec(s@.skip(i + 1), from@, to@)
                =~= before + replace_spec(rest, from@, to@));
            i = i + 1;
        }
    }
    let tail = slice_text(&sv, i, sv.len());
    assert(tail@ =~= s@.skip(i as int));
    r.append(tail.as_str());
    r
}

// ── Pieces ───────────────────────────────────────────────────────────────────

/// The pieces of `s` between the occurrences of `d`, which are taken from the
/// left and without overlap: `start` is where the piece begins that `i` is in.
pub open spec fn split_spec(s: Seq<char>, d: Seq<char>, start: int, i: int) -> Seq<Seq<char>>
    decreases s.len() - i,
{
    if i < 0 || d.len() == 0 || i + d.len() > s.len() {
        seq![s.skip(start)]
    } else if occurs_at(s, d, i) {
        seq![s.subrange(start, i)] + split_spec(s, d, i + d.len(), i + d.len())
    } else {
        split_spec(s, d, start, i + 1)
    }
}

pub fn split(s: &str, d: &str) -> (r: Vec<String>)
    requires
        d@.len() > 0,
    ensures
        texts(r@) == split_spec(s@, d@, 0, 0),
{
    let sv = chars_of(s);
    let dv = chars_of(d);
    let mut r: Vec<String> = Vec::new();
    let mut start: usize = 0;
    let mut i: usize = 0;
    assert(texts(r@) + split_spec(s@, d@, 0, 0) =~= split_spec(s@, d@, 0, 0));
    while i < sv.len() && sv.len() - i >= dv.len()
        invariant
            sv@ == s@,
            dv@ == d@,
            d@.len() > 0,
            start <= i <= sv@.len(),
            texts(r@) + split_spec(s@, d@, start as int, i as int) == split_spec(s@, d@, 0, 0),
        decreases sv@.len() - i,
    {
        if matches_at(&sv, &dv, i) {
            let piece = slice_text(&sv, start, i);
            let ghost before = texts(r@);
            push_text(&mut r, piece);
            i = i + dv.len();
            proof {
                assert(texts(r@) + split_spec(s@, d@, i as int, i as int) =~= before + (
                seq![piece@] + split_spec(s@, d@, i as int, i as int)));
            }
            start = i;
        } else {
            i = i + 1;
        }
    }
    let piece = slice_text(&sv, start, sv.len());
    assert(piece@ =~= s@.skip(start as int));
    push_text(&mut r, piece);
    r
}

/// How many bytes a character takes in UTF-8.
pub open spec fn char_bytes(c: char) -> int {
    if c <= '\u{7f}' {
        1
    } else if c <= '\u{7ff}' {
        2
    } else if c <= '\u{ffff}' {
        3
    } else {
        4
    }
}

/// How many bytes the first `k` characters of a text take in UTF-8.
pub open spec fn byte_len(s: Seq<char>, k: int) -> int
    decreases k,
{
    if k <= 0 || k > s.len() {
        0
    } else {
        byte_len(s, k - 1) + char_bytes(s[k - 1])
    }
}

/// How many bytes the first `k` characters take in UTF-8.
pub fn utf8_prefix_len(v: &Vec<char>, k: usize) -> (r: u128)
    ensures
        r == byte_len(v@, k as int),
        r <= 4 * u64::MAX,
{
    if k > v.len() {
        return 0;
    }
    let mut n: u128 = 0;
    for i in 0..k
        invariant
            k <= v@.len(),
            n == byte_len(v@, i as int),
            n <= 4 * i,
    {
        let c: char = v[i];
        n = n + (if c <= '\u{7f}' {
            1u128
        } else if c <= '\u{7ff}' {
            2u128
        } else if c <= '\u{ffff}' {
            3u128
        } else {
            4u128
        });
    }
    n
}

pub fn utf8_len(s: &str) -> (r: u128)
    ensures
        r == byte_len(s@, s@.len() as int),
        r <= 4 * u64::MAX,
{
    let v = chars_of(s);
    utf8_prefix_len(&v, v.len())
}

/// The decimal text of a number that may be large.
pub fn digits_u128(n: u128) -> (r: String)
    ensures
        r@ == digits(n as nat),
    decreases n,
{
    let mut r = if n < 10 {
        String::new()
    } else {
        digits_u128(n / 10)
    };
    let d: u8 = (n % 10) as u8;
    r.push((48u8 + d) as char);
    assert(n < 10 ==> r@ =~= seq![digit(n as int)]);
    r
}

// ── Trimming ─────────────────────────────────────────────────────────────────

/// The characters that Unicode gives the property `White_Space`.
pub open spec fn is_white(c: char) -> bool {
    ||| '\u{9}' <= c <= '\u{d}'
    ||| c == ' '
    ||| c == '\u{85}'
    ||| c == '\u{a0}'
    ||| c == '\u{1680}'
    ||| '\u{2000}' <= c <= '\u{200a}'
    ||| c == '\u{2028}'
    ||| c == '\u{2029}'
    ||| c == '\u{202f}'
    ||| c == '\u{205f}'
    ||| c == '\u{3000}'
}

pub fn is_white_char(c: char) -> (r: bool)
    ensures
        r == is_white(c),
{
    ('\u{9}' <= c && c <= '\u{d}') || c == ' ' || c == '\u{85}' || c == '\u{a0}' || c == '\u{1680}'
        || ('\u{2000}' <= c && c <= '\u{200a}') || c == '\u{2028}' || c == '\u{2029}' || c == '\u{202f}'
        || c == '\u{205f}' || c == '\u{3000}'
}

pub open spec fn trim_start_spec(s: Seq<char>, drop: spec_fn(char) -> bool) -> Seq<char>
    decreases s.len(),
{
    if s.len() > 0 && drop(s[0]) {
        trim_start_spec(s.skip(1), drop)
    } else {
        s
    }
}

pub open spec fn trim_end_spec(s: Seq<char>, drop: spec_fn(char) -> bool) -> Seq<char>
    decreases s.len(),
{
    if s.len() > 0 && drop(s.last()) {
        trim_end_spec(s.drop_last(), drop)
    } else {
        s
    }
}

/// The text without its leading and trailing white space.
pub open spec fn trim_spec(s: Seq<char>) -> Seq<char> {
    trim_end_spec(trim_start_spec(s, |c: char| is_white(c)), |c: char| is_white(c))
}

pub fn trim(s: &str) -> (r: String)
    ensures
        r@ == trim_spec(s@),
{
    let v = chars_of(s);
    let ghost drop = |c: char| is_white(c);
    let mut a: usize = 0;
    assert(s@.skip(0) =~= s@);
    while a < v.len() && is_white_char(v[a])
        invariant
            v@ == s@,
            drop == (|c: char| is_white(c)),
            a <= v@.len(),
            trim_start_spec(s@.skip(a as int), drop) == trim_start_spec(s@, drop),
        decreases v@.len() - a,
    {
        assert(s@.skip(a as int).skip(1) =~= s@.skip(a + 1));
        a = a + 1;
    }
    let ghost mid = s@.skip(a as int);
    assert(trim_start_spec(s@, drop) == mid);
    let mut b: usize = v.len();
    assert(s@.subrange(a as int, b as int) =~= mid);
    while a < b && is_white_char(v[b - 1])
        invariant
            v@ == s@,
            drop == (|c: char| is_white(c)),
            a <= b <= v@.len(),
            trim_end_spec(s@.subrange(a as int, b as int), drop) == trim_end_spec(mid, drop),
        decreases b,
    {
        assert(s@.subrange(a as int, b as int).drop_last() =~= s@.subrange(a as int, b - 1));
        b = b - 1;
    }
    slice_text(&v, a, b)
}

/// What stands between the outer square brackets of a text, one on each side,
/// trimmed.
pub open spec fn unbracket_spec(s: Seq<char>) -> Seq<char> {
    let a = if starts_with_char_spec(s, '[') {
        1int
    } else {
        0
    };
    let b = if a < s.len() && s.last() == ']' {
        s.len() - 1
    } else {
        s.len() as int
    };
    trim_spec(s.subrange(a, b))
}

pub fn unbracket(s: &str) -> (r: String)
    ensures
        r@ == unbracket_spec(s@),
{
    let v = chars_of(s);
    let a: usize = if v.len() > 0 && v[0] == '[' {
        1
    } else {
        0
    };
    let n: usize = v.len();
    let b: usize = if a < n && v[n - 1] == ']' {
        n - 1
    } else {
        n
    };
    let inner = slice_text(&v, a, b);
    trim(inner.as_str())
}

// ── Escaping ─────────────────────────────────────────────────────────────────

/// `s` with each character replaced by the text that `f` gives for it.
pub open spec fn spell(s: Seq<char>, f: spec_fn(char) -> Seq<char>) -> Seq<char>
    decreases s.len(),
{
    if s.len() == 0 {
        Seq::empty()
    } else {
        spell(s.drop_last(), f) + f(s.last())
    }
}

// ── Numbers ──────────────────────────────────────────────────────────────────

pub open spec fn digit(d: int) -> char {
    (48 + d) as char
}

/// The decimal digits of a natural number.
pub open spec fn digits(n: nat) -> Seq<char>
    decreases n,
{
    if n < 10 {
        seq![digit(n as int)]
    } else {
        digits(n / 10).push(digit((n % 10) as int))
    }
}

/// The decimal text of an integer.
pub open spec fn dec(n: int) -> Seq<char> {
    if n < 0 {
        "-"@ + digits((-n) as nat)
    } else {
        digits(n as nat)
    }
}

/// As many zeros as the count says.
pub open spec fn zeros(n: int) -> Seq<char> {
    if n <= 0 {
        seq![]
    } else {
        Seq::new(n as nat, |i: int| '0')
    }
}

pub fn digits_u64(n: u64) -> (r: String)
    ensures
        r@ == digits(n as nat),
    decreases n,
{
    let mut r = if n < 10 {
        String::new()
    } else {
        digits_u64(n / 10)
    };
    let d: u8 = (n % 10) as u8;
    r.push((48u8 + d) as char);
    assert(n < 10 ==> r@ =~= seq![digit(n as int)]);
    r
}

pub fn dec_i64(n: i64) -> (r: String)
    ensures
        r@ == dec(n as int),
{
    if n < 0 {
        let m: u64 = (-(n + 1)) as u64 + 1;
        let d = digits_u64(m);
        "-".to_owned().concat(d.as_str())
    } else {
        digits_u64(n as u64)
    }
}

/// The decimal text of `-n`.
pub fn neg_dec_i64(n: i64) -> (r: String)
    ensures
        r@ == dec(-n),
{
    if n > 0 {
        let d = digits_u64(n as u64);
        "-".to_owned().concat(d.as_str())
    } else if n == 0 {
        digits_u64(0)
    } else {
        digits_u64((-(n + 1)) as u64 + 1)
    }
}

pub fn dec_usize(n: usize) -> (r: String)
    ensures
        r@ == dec(n as int),
{
    digits_u64(n as u64)
}

} // verus!
