//! Character classes, whitespace splitting and the normalisation of text into
//! index terms.
use vstd::prelude::*;
use vstd::std_specs::iter::IteratorSpec;

verus! {

/// The characters with the Unicode `White_Space` property, the set that
/// `char::is_whitespace` and `str::split_whitespace` use.
pub open spec fn is_space_char(c: char) -> bool {
    let v = c as u32;
    ||| 0x09 <= v <= 0x0d
    ||| v == 0x20
    ||| v == 0x85
    ||| v == 0xa0
    ||| v == 0x1680
    ||| 0x2000 <= v <= 0x200a
    ||| v == 0x2028
    ||| v == 0x2029
    ||| v == 0x202f
    ||| v == 0x205f
    ||| v == 0x3000
}

/// Whether `c` is Unicode whitespace.
pub fn is_space(c: char) -> (r: bool)
    ensures
        r == is_space_char(c),
{
    let v = c as u32;
    (0x09 <= v && v <= 0x0d) || v == 0x20 || v == 0x85 || v == 0xa0 || v == 0x1680 || (0x2000
        <= v && v <= 0x200a) || v == 0x2028 || v == 0x2029 || v == 0x202f || v == 0x205f || v
        == 0x3000
}

/// Whether a character is Unicode Alphabetic or Numeric.
pub uninterp spec fn alnum(c: char) -> bool;

/// Relies on `char::is_alphanumeric`, which decides membership in the
/// Unicode Alphabetic or Numeric categories from the character alone.
#[verifier::external_body]
fn is_alnum(c: char) -> (r: bool)
    ensures
        r == alnum(c),
{
    c.is_alphanumeric()
}

/// The Unicode lowercase mapping of a string.
pub uninterp spec fn lower_of(s: Seq<char>) -> Seq<char>;

/// Relies on `str::to_lowercase`, whose result depends on the characters of
/// `s` alone.
#[verifier::external_body]
fn lowercase(s: &str) -> (r: String)
    ensures
        r@ == lower_of(s@),
{
    s.to_lowercase()
}

/// Relies on `String::push`: appends one character.
pub assume_specification[ String::push ](s: &mut String, ch: char)
    ensures
        final(s)@ == old(s)@.push(ch),
;

/// The views of a sequence of strings.
pub open spec fn string_views(v: Seq<String>) -> Seq<Seq<char>> {
    v.map_values(|s: String| s@)
}

/// The views of a sequence of character vectors.
pub open spec fn char_views(v: Seq<Vec<char>>) -> Seq<Seq<char>> {
    v.map_values(|w: Vec<char>| w@)
}

/// Ends the word being read, keeping it only when it is not empty.
pub open spec fn close_word(done: Seq<Seq<char>>, cur: Seq<char>) -> Seq<Seq<char>> {
    if cur.len() > 0 {
        done.push(cur)
    } else {
        done
    }
}

/// The words completed so far and the word being read, after reading `s`
/// from left to right.
pub open spec fn scan_words(s: Seq<char>) -> (Seq<Seq<char>>, Seq<char>)
    decreases s.len(),
{
    if s.len() == 0 {
        (Seq::empty(), Seq::empty())
    } else {
        let prev = scan_words(s.drop_last());
        if is_space_char(s.last()) {
            (close_word(prev.0, prev.1), Seq::empty())
        } else {
            (prev.0, prev.1.push(s.last()))
        }
    }
}

/// The maximal runs of non-whitespace characters of `s`, in order: what
/// `str::split_whitespace` yields.
pub open spec fn words(s: Seq<char>) -> Seq<Seq<char>> {
    close_word(scan_words(s).0, scan_words(s).1)
}

/// `w` without its leading non-alphanumeric characters.
pub open spec fn trim_front(w: Seq<char>) -> Seq<char>
    decreases w.len(),
{
    if w.len() > 0 && !alnum(w[0]) {
        trim_front(w.drop_first())
    } else {
        w
    }
}

/// `w` without its trailing non-alphanumeric characters.
pub open spec fn trim_back(w: Seq<char>) -> Seq<char>
    decreases w.len(),
{
    if w.len() > 0 && !alnum(w.last()) {
        trim_back(w.drop_last())
    } else {
        w
    }
}

/// `w` stripped of non-alphanumeric characters at both ends.
pub open spec fn trim(w: Seq<char>) -> Seq<char> {
    trim_back(trim_front(w))
}

/// Each word trimmed, with the words that become empty left out.
pub open spec fn keep_terms(ws: Seq<Seq<char>>) -> Seq<Seq<char>>
    decreases ws.len(),
{
    if ws.len() == 0 {
        Seq::empty()
    } else {
        let rest = keep_terms(ws.drop_last());
        let t = trim(ws.last());
        if t.len() > 0 {
            rest.push(t)
        } else {
            rest
        }
    }
}

/// The normalised terms of a text: lowercased, split on whitespace, each
/// token stripped of non-alphanumeric characters at both ends, empty tokens
/// dropped.
pub open spec fn terms_of(text: Seq<char>) -> Seq<Seq<char>> {
    keep_terms(words(lower_of(text)))
}

/// The characters of `s`, in order.
pub fn chars_of(s: &str) -> (r: Vec<char>)
    ensures
        r@ == s@,
{
    let mut out: Vec<char> = Vec::new();
    let mut it = s.chars();
    loop
        invariant
            out@ + it.remaining() == s@,
            it.decrease() is Some,
        ensures
            out@ == s@,
        decreases it.decrease()->0,
    {
        match it.next() {
            Some(c) => {
                out.push(c);
            },
            None => {
                break ;
            },
        }
    }
    out
}

/// The whitespace-separated words of `cs`, in order.
pub fn split_words(cs: &Vec<char>) -> (r: Vec<Vec<char>>)
    ensures
        char_views(r@) == words(cs@),
{
    let mut done: Vec<Vec<char>> = Vec::new();
    let mut cur: Vec<char> = Vec::new();
    let n = cs.len();
    let mut i: usize = 0;
    while i < n
        invariant
            n == cs@.len(),
            i <= n,
            (char_views(done@), cur@) == scan_words(cs@.subrange(0, i as int)),
        decreases n - i,
    {
        let c = cs[i];
        assert(cs@.subrange(0, i + 1).drop_last() =~= cs@.subrange(0, i as int));
        if is_space(c) {
            if cur.len() > 0 {
                let w = cur;
                cur = Vec::new();
                proof {
                    assert(char_views(done@.push(w)) =~= char_views(done@).push(w@));
                }
                done.push(w);
            } else {
                cur = Vec::new();
            }
        } else {
            cur.push(c);
        }
        i = i + 1;
    }
    assert(cs@.subrange(0, n as int) =~= cs@);
    if cur.len() > 0 {
        proof {
            assert(char_views(done@.push(cur)) =~= char_views(done@).push(cur@));
        }
        done.push(cur);
    }
    done
}

/// The bounds `(lo, hi)` of `trim(w)` within `w`.
pub fn trim_bounds(w: &Vec<char>) -> (r: (usize, usize))
    ensures
        r.0 <= r.1 <= w@.len(),
        w@.subrange(r.0 as int, r.1 as int) == trim(w@),
{
    let n = w.len();
    let mut lo: usize = 0;
    assert(w@.subrange(0, n as int) =~= w@);
    while lo < n && !is_alnum(w[lo])
        invariant
            n == w@.len(),
            lo <= n,
            trim_front(w@) == trim_front(w@.subrange(lo as int, n as int)),
        decreases n - lo,
    {
        assert(w@.subrange(lo as int, n as int).drop_first() =~= w@.subrange(lo + 1, n as int));
        lo = lo + 1;
    }
    assert(trim_front(w@) == w@.subrange(lo as int, n as int)) by {
        if lo == n {
            assert(w@.subrange(lo as int, n as int).len() == 0);
        }
    }
    let mut hi: usize = n;
    while hi > lo && !is_alnum(w[hi - 1])
        invariant
            n == w@.len(),
            lo <= hi <= n,
            trim(w@) == trim_back(w@.subrange(lo as int, hi as int)),
        decreases hi - lo,
    {
        assert(w@.subrange(lo as int, hi as int).drop_last() =~= w@.subrange(
            lo as int,
            hi - 1,
        ));
        hi = hi - 1;
    }
    (lo, hi)
}

/// The string made of `cs[lo..hi]`.
pub fn string_of(cs: &Vec<char>, lo: usize, hi: usize) -> (r: String)
    requires
        lo <= hi <= cs@.len(),
    ensures
        r@ == cs@.subrange(lo as int, hi as int),
{
    let mut s = String::new();
    let mut i: usize = lo;
    while i < hi
        invariant
            lo <= i <= hi <= cs@.len(),
            s@ == cs@.subrange(lo as int, i as int),
        decreases hi - i,
    {
        s.push(cs[i]);
        assert(s@ =~= cs@.subrange(lo as int, i + 1));
        i = i + 1;
    }
    s
}

/// The normalised terms of `text`, in the order in which they occur.
pub fn terms(text: &str) -> (r: Vec<String>)
    ensures
        string_views(r@) == terms_of(text@),
{
    let lowered = lowercase(text);
    let cs = chars_of(lowered.as_str());
    let ws = split_words(&cs);
    let ghost wv = char_views(ws@);
    let mut out: Vec<String> = Vec::new();
    let mut i: usize = 0;
    while i < ws.len()
        invariant
            i <= ws@.len(),
            wv == char_views(ws@),
            wv == words(lower_of(text@)),
            string_views(out@) == keep_terms(wv.subrange(0, i as int)),
        decreases ws@.len() - i,
    {
        assert(wv.subrange(0, i + 1).drop_last() =~= wv.subrange(0, i as int));
        let (lo, hi) = trim_bounds(&ws[i]);
        if lo < hi {
            let t = string_of(&ws[i], lo, hi);
            proof {
                assert(string_views(out@.push(t)) =~= string_views(out@).push(t@));
            }
            out.push(t);
        }
        i = i + 1;
    }
    assert(wv.subrange(0, ws@.len() as int) =~= wv);
    out
}

} // verus!
