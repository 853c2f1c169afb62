//! Character-level text handling used by the G-code readers: whitespace,
//! trimming, splitting on a character and splitting into words.
use vstd::prelude::*;

verus! {

/// The Unicode `White_Space` property (the set that `char::is_whitespace` tests).
pub open spec fn is_ws(c: char) -> bool {
    let u = c as u32;
    ||| 0x09 <= u && u <= 0x0d
    ||| u == 0x20
    ||| u == 0x85
    ||| u == 0xa0
    ||| u == 0x1680
    ||| 0x2000 <= u && u <= 0x200a
    ||| u == 0x2028
    ||| u == 0x2029
    ||| u == 0x202f
    ||| u == 0x205f
    ||| u == 0x3000
}

/// Whether a character is one byte long in UTF-8.
pub open spec fn is_one_byte(c: char) -> bool {
    (c as u32) < 0x80
}

/// Index of the first occurrence of `c` in `s`.
pub open spec fn find_char(s: Seq<char>, c: char) -> Option<int>
    decreases s.len(),
{
    if s.len() == 0 {
        None
    } else if s[0] == c {
        Some(0)
    } else {
        match find_char(s.drop_first(), c) {
            Some(i) => Some(i + 1),
            None => None,
        }
    }
}

/// The part of `s` before the first `c` (all of `s` if it holds none):
/// the first piece of `s.split(c)`.
pub open spec fn before_char(s: Seq<char>, c: char) -> Seq<char> {
    match find_char(s, c) {
        Some(i) => s.take(i),
        None => s,
    }
}

/// `s.split_once(c)`: the parts before and after the first `c`.
pub open spec fn split_once_char(s: Seq<char>, c: char) -> Option<(Seq<char>, Seq<char>)> {
    match find_char(s, c) {
        Some(i) => Some((s.take(i), s.skip(i + 1))),
        None => None,
    }
}

/// `s` without its leading whitespace.
pub open spec fn trim_start(s: Seq<char>) -> Seq<char>
    decreases s.len(),
{
    if s.len() > 0 && is_ws(s[0]) {
        trim_start(s.drop_first())
    } else {
        s
    }
}

/// `s` without its trailing whitespace.
pub open spec fn trim_end(s: Seq<char>) -> Seq<char>
    decreases s.len(),
{
    if s.len() > 0 && is_ws(s.last()) {
        trim_end(s.drop_last())
    } else {
        s
    }
}

/// `s` without leading and trailing whitespace (`str::trim`).
pub open spec fn trim(s: Seq<char>) -> Seq<char> {
    trim_end(trim_start(s))
}

/// `s` without one trailing `c`, if it ends with one.
pub open spec fn strip_last(s: Seq<char>, c: char) -> Seq<char> {
    if s.len() > 0 && s.last() == c {
        s.drop_last()
    } else {
        s
    }
}

/// Reading `s` from the left: the pieces already closed by a `sep`, and the piece still open.
pub open spec fn scan_pieces(s: Seq<char>, sep: char) -> (Seq<Seq<char>>, Seq<char>)
    decreases s.len(),
{
    if s.len() == 0 {
        (seq![], seq![])
    } else {
        let (done, cur) = scan_pieces(s.drop_last(), sep);
        if s.last() == sep {
            (done.push(cur), seq![])
        } else {
            (done, cur.push(s.last()))
        }
    }
}

/// `s.split(sep)`: the pieces between separators, empty ones included.
pub open spec fn split_pieces(s: Seq<char>, sep: char) -> Seq<Seq<char>> {
    let (done, cur) = scan_pieces(s, sep);
    done.push(cur)
}

/// `s` with each `\n` preceded by a `\r` (`s.replace("\n", "\r\n")`).
pub open spec fn crlf(s: Seq<char>) -> Seq<char>
    decreases s.len(),
{
    if s.len() == 0 {
        seq![]
    } else if s.last() == '\n' {
        crlf(s.drop_last()) + seq!['\r', '\n']
    } else {
        crlf(s.drop_last()).push(s.last())
    }
}

/// No piece of the scan ends with `\r`.
pub open spec fn no_cr_ends(done: Seq<Seq<char>>, cur: Seq<char>) -> bool {
    &&& forall|i: int| 0 <= i < done.len() ==> #[trigger] strip_last(done[i], '\r') == done[i]
    &&& strip_last(cur, '\r') == cur
}

/// Splitting `crlf(s)` at `\n` gives the pieces of `s` with a `\r` added to
/// each closed piece, and the same open piece.
pub proof fn lemma_scan_crlf(s: Seq<char>)
    requires
        forall|i: int| 0 <= i < s.len() ==> s[i] != '\r',
    ensures
        ({
            let (d, c) = scan_pieces(s, '\n');
            let (d2, c2) = scan_pieces(crlf(s), '\n');
            &&& no_cr_ends(d, c)
            &&& c2 == c
            &&& d2.len() == d.len()
            &&& forall|i: int| 0 <= i < d.len() ==> #[trigger] d2[i] == d[i].push('\r')
        }),
    decreases s.len(),
{
    if s.len() > 0 {
        let r = s.drop_last();
        lemma_scan_crlf(r);
        let (d, c) = scan_pieces(r, '\n');
        let (d2, c2) = scan_pieces(crlf(r), '\n');
        if s.last() == '\n' {
            let t = crlf(r) + seq!['\r', '\n'];
            assert(t.drop_last() =~= crlf(r).push('\r'));
            assert(crlf(r).push('\r').drop_last() =~= crlf(r));
            assert(scan_pieces(crlf(r).push('\r'), '\n') == (d2, c2.push('\r')));
            let (e, f) = scan_pieces(s, '\n');
            assert(e == d.push(c));
            assert forall|i: int| 0 <= i < e.len() implies #[trigger] strip_last(e[i], '\r') == e[i] by {
                if i < d.len() {
                    assert(e[i] == d[i]);
                }
            }
        } else {
            assert(crlf(s).drop_last() =~= crlf(r));
            let (e, f) = scan_pieces(s, '\n');
            assert(f == c.push(s.last()));
            assert(strip_last(f, '\r') == f);
        }
    }
}

/// Reading `s` from the left: the words already ended by whitespace, and the word still open.
pub open spec fn scan_words(s: Seq<char>) -> (Seq<Seq<char>>, Seq<char>)
    decreases s.len(),
{
    if s.len() == 0 {
        (seq![], seq![])
    } else {
        let (done, cur) = scan_words(s.drop_last());
        if is_ws(s.last()) {
            if cur.len() == 0 {
                (done, cur)
            } else {
                (done.push(cur), seq![])
            }
        } else {
            (done, cur.push(s.last()))
        }
    }
}

/// `s.split_whitespace()`: the maximal runs of non-whitespace characters.
pub open spec fn words(s: Seq<char>) -> Seq<Seq<char>> {
    let (done, cur) = scan_words(s);
    if cur.len() == 0 {
        done
    } else {
        done.push(cur)
    }
}

/// The views of a vector of character vectors.
pub open spec fn views(v: Seq<Vec<char>>) -> Seq<Seq<char>> {
    v.map_values(|x: Vec<char>| x@)
}

pub proof fn lemma_find_char(s: Seq<char>, c: char, i: int)
    requires
        0 <= i <= s.len(),
        forall|j: int| 0 <= j < i ==> s[j] != c,
    ensures
        i < s.len() && s[i] == c ==> find_char(s, c) == Some(i),
        i == s.len() ==> find_char(s, c) is None,
    decreases i,
{
    if i > 0 {
        lemma_find_char(s.drop_first(), c, i - 1);
    }
}

pub proof fn lemma_find_char_found(s: Seq<char>, c: char)
    ensures
        find_char(s, c) matches Some(i) ==> 0 <= i < s.len() && s[i] == c && forall|j: int|
            0 <= j < i ==> s[j] != c,
        find_char(s, c) is None ==> forall|j: int| 0 <= j < s.len() ==> s[j] != c,
    decreases s.len(),
{
    if s.len() > 0 {
        lemma_find_char_found(s.drop_first(), c);
        if s[0] != c {
            assert forall|j: int| 1 <= j < s.len() implies s[j] == s.drop_first()[j - 1] by {}
        }
    }
}

proof fn lemma_trim_start(s: Seq<char>, i: int)
    requires
        0 <= i <= s.len(),
        forall|j: int| 0 <= j < i ==> is_ws(#[trigger] s[j]),
        i == s.len() || !is_ws(s[i]),
    ensures
        trim_start(s) == s.skip(i),
    decreases i,
{
    if i == 0 {
        assert(s.skip(0) =~= s);
    } else {
        lemma_trim_start(s.drop_first(), i - 1);
        assert(s.drop_first().skip(i - 1) =~= s.skip(i));
    }
}

proof fn lemma_trim_end(s: Seq<char>, k: int)
    requires
        0 <= k <= s.len(),
        forall|j: int| k <= j < s.len() ==> is_ws(#[trigger] s[j]),
        k == 0 || !is_ws(s[k - 1]),
    ensures
        trim_end(s) == s.take(k),
    decreases s.len() - k,
{
    if k == s.len() {
        assert(s.take(k) =~= s);
    } else {
        lemma_trim_end(s.drop_last(), k);
        assert(s.drop_last().take(k) =~= s.take(k));
    }
}

/// Every character of `s` is whitespace.
pub open spec fn all_ws(s: Seq<char>) -> bool {
    forall|i: int| 0 <= i < s.len() ==> is_ws(#[trigger] s[i])
}

/// Leading whitespace is trimmed away.
proof fn lemma_trim_start_skips(w: Seq<char>, y: Seq<char>)
    requires
        all_ws(w),
    ensures
        trim_start(w + y) == trim_start(y),
    decreases w.len(),
{
    if w.len() > 0 {
        assert((w + y)[0] == w[0]);
        assert((w + y).drop_first() =~= w.drop_first() + y);
        lemma_trim_start_skips(w.drop_first(), y);
    } else {
        assert(w + y =~= y);
    }
}

/// Trailing whitespace is trimmed away.
proof fn lemma_trim_end_skips(z: Seq<char>, w: Seq<char>)
    requires
        all_ws(w),
    ensures
        trim_end(z + w) == trim_end(z),
    decreases w.len(),
{
    if w.len() > 0 {
        assert((z + w).last() == w.last());
        assert((z + w).drop_last() =~= z + w.drop_last());
        lemma_trim_end_skips(z, w.drop_last());
    } else {
        assert(z + w =~= z);
    }
}

/// Trimming the start of `x + w` keeps the trailing whitespace `w`, unless
/// all of it goes.
proof fn lemma_trim_start_append(x: Seq<char>, w: Seq<char>)
    requires
        all_ws(w),
    ensures
        trim_start(x + w) == trim_start(x) + w || (trim_start(x + w).len() == 0 && trim_start(x).len() == 0),
    decreases x.len(),
{
    if x.len() == 0 {
        assert(x + w =~= w);
        lemma_trim_start_skips(w, seq![]);
        assert(w + seq![] =~= w);
    } else {
        assert((x + w)[0] == x[0]);
        assert((x + w).drop_first() =~= x.drop_first() + w);
        if is_ws(x[0]) {
            lemma_trim_start_append(x.drop_first(), w);
        }
    }
}

/// Whitespace around a text does not change what trimming gives.
pub proof fn lemma_trim_padded(w1: Seq<char>, x: Seq<char>, w2: Seq<char>)
    requires
        all_ws(w1),
        all_ws(w2),
    ensures
        trim(w1 + x + w2) == trim(x),
{
    assert(w1 + x + w2 =~= w1 + (x + w2));
    lemma_trim_start_skips(w1, x + w2);
    lemma_trim_start_append(x, w2);
    if trim_start(x + w2) == trim_start(x) + w2 {
        lemma_trim_end_skips(trim_start(x), w2);
    }
}

/// Whatever follows a `c` added after `s` leaves the part before the first `c` as it is.
pub proof fn lemma_before_char_appended(s: Seq<char>, c: char, rest: Seq<char>)
    ensures
        before_char(s + seq![c] + rest, c) == before_char(s, c),
{
    let full = s + seq![c] + rest;
    lemma_find_char_found(s, c);
    match find_char(s, c) {
        Some(i) => {
            assert forall|j: int| 0 <= j < i implies full[j] != c by {
                assert(full[j] == s[j]);
            }
            lemma_find_char(full, c, i);
            assert(full.take(i) =~= s.take(i));
        },
        None => {
            assert forall|j: int| 0 <= j < s.len() implies full[j] != c by {
                assert(full[j] == s[j]);
            }
            lemma_find_char(full, c, s.len() as int);
            assert(full.take(s.len() as int) =~= s);
        },
    }
}

/// Text after `s` that holds no `c` is kept by the part before the first `c`
/// only where `s` holds no `c`.
pub proof fn lemma_before_char_suffixed(s: Seq<char>, w: Seq<char>, c: char)
    requires
        forall|i: int| 0 <= i < w.len() ==> w[i] != c,
    ensures
        before_char(s + w, c) == if find_char(s, c) is None {
            before_char(s, c) + w
        } else {
            before_char(s, c)
        },
{
    let full = s + w;
    lemma_find_char_found(s, c);
    match find_char(s, c) {
        Some(i) => {
            assert forall|j: int| 0 <= j < i implies full[j] != c by {
                assert(full[j] == s[j]);
            }
            assert(full[i] == s[i]);
            lemma_find_char(full, c, i);
            assert(full.take(i) =~= s.take(i));
        },
        None => {
            assert forall|j: int| 0 <= j < full.len() implies full[j] != c by {
                if j >= s.len() {
                    assert(full[j] == w[j - s.len()]);
                } else {
                    assert(full[j] == s[j]);
                }
            }
            lemma_find_char(full, c, full.len() as int);
        },
    }
}

/// Text before `s` that holds no `c` moves the part before the first `c` along with it.
pub proof fn lemma_before_char_prefixed(w: Seq<char>, s: Seq<char>, c: char)
    requires
        forall|i: int| 0 <= i < w.len() ==> w[i] != c,
    ensures
        before_char(w + s, c) == w + before_char(s, c),
{
    let full = w + s;
    lemma_find_char_found(s, c);
    match find_char(s, c) {
        Some(i) => {
            assert forall|j: int| 0 <= j < w.len() + i implies full[j] != c by {
                if j >= w.len() {
                    assert(full[j] == s[j - w.len()]);
                }
            }
            assert(full[w.len() + i] == s[i]);
            lemma_find_char(full, c, w.len() + i);
            assert(full.take(w.len() + i) =~= w + s.take(i));
        },
        None => {
            assert forall|j: int| 0 <= j < full.len() implies full[j] != c by {
                if j >= w.len() {
                    assert(full[j] == s[j - w.len()]);
                }
            }
            lemma_find_char(full, c, full.len() as int);
        },
    }
}

/// The characters of a string.
pub fn chars_of(s: &str) -> (v: Vec<char>)
    ensures
        v@ == s@,
{
    broadcast use vstd::string::group_string_axioms;

    let mut v: Vec<char> = Vec::new();
    for c in it: s.chars()
        invariant
            it.seq() == s@,
            v@ == it.seq().take(it.index() as int),
    {
        v.push(c);
    }
    assert(v@ =~= s@);
    v
}

/// `char::is_whitespace`.
pub fn is_whitespace(c: char) -> (r: bool)
    ensures
        r == is_ws(c),
{
    let u = c as u32;
    (0x09 <= u && u <= 0x0d) || u == 0x20 || u == 0x85 || u == 0xa0 || u == 0x1680 || (0x2000 <= u
        && u <= 0x200a) || u == 0x2028 || u == 0x2029 || u == 0x202f || u == 0x205f || u == 0x3000
}

/// The character at position `i`.
pub fn char_at(s: &Vec<char>, i: usize) -> (c: char)
    requires
        i < s.len(),
    ensures
        c == s@[i as int],
{
    s[i]
}

/// A copy of `s[from..to]`.
pub fn copy_range(s: &Vec<char>, from: usize, to: usize) -> (r: Vec<char>)
    requires
        from <= to <= s.len(),
    ensures
        r@ == s@.subrange(from as int, to as int),
{
    let mut r: Vec<char> = Vec::new();
    let mut i: usize = from;
    while i < to
        invariant
            from <= i <= to <= s.len(),
            r@ == s@.subrange(from as int, i as int),
        decreases to - i,
    {
        r.push(s[i]);
        i = i + 1;
    }
    r
}

/// Position of the first `c` in `s`.
pub fn find(s: &Vec<char>, c: char) -> (r: Option<usize>)
    ensures
        match r {
            Some(i) => find_char(s@, c) == Some(i as int),
            None => find_char(s@, c) is None,
        },
{
    let mut i: usize = 0;
    while i < s.len()
        invariant
            i <= s.len(),
            forall|j: int| 0 <= j < i ==> s@[j] != c,
        decreases s.len() - i,
    {
        if s[i] == c {
            proof {
                lemma_find_char(s@, c, i as int);
            }
            return Some(i);
        }
        i = i + 1;
    }
    proof {
        lemma_find_char(s@, c, i as int);
    }
    None
}

/// The part of `s` before the first `c`.
pub fn before(s: &Vec<char>, c: char) -> (r: Vec<char>)
    ensures
        r@ == before_char(s@, c),
{
    match find(s, c) {
        Some(i) => {
            proof {
                lemma_find_char_found(s@, c);
            }
            let r = copy_range(s, 0, i);
            assert(r@ =~= s@.take(i as int));
            r
        },
        None => {
            let r = copy_range(s, 0, s.len());
            assert(r@ =~= s@);
            r
        },
    }
}

/// `s` without leading and trailing whitespace.
pub fn trimmed(s: &Vec<char>) -> (r: Vec<char>)
    ensures
        r@ == trim(s@),
{
    let mut i: usize = 0;
    while i < s.len() && is_whitespace(s[i])
        invariant
            i <= s.len(),
            forall|j: int| 0 <= j < i ==> is_ws(#[trigger] s@[j]),
        decreases s.len() - i,
    {
        i = i + 1;
    }
    proof {
        lemma_trim_start(s@, i as int);
    }
    let mut k: usize = s.len();
    while k > i && is_whitespace(s[k - 1])
        invariant
            i <= k <= s.len(),
            forall|j: int| k <= j < s.len() ==> is_ws(#[trigger] s@[j]),
        decreases k - i,
    {
        k = k - 1;
    }
    let ghost t = s@.skip(i as int);
    proof {
        assert forall|j: int| k - i <= j < t.len() implies is_ws(#[trigger] t[j]) by {
            assert(t[j] == s@[j + i]);
        }
        lemma_trim_end(t, k - i);
        assert(t.take(k - i) =~= s@.subrange(i as int, k as int));
    }
    copy_range(s, i, k)
}

/// `s` without one trailing `c`.
pub fn strip_last_char(s: &Vec<char>, c: char) -> (r: Vec<char>)
    ensures
        r@ == strip_last(s@, c),
{
    if s.len() > 0 && s[s.len() - 1] == c {
        copy_range(s, 0, s.len() - 1)
    } else {
        copy_range(s, 0, s.len())
    }
}

/// The pieces of `s` between occurrences of `sep`.
pub fn split(s: &Vec<char>, sep: char) -> (r: Vec<Vec<char>>)
    ensures
        views(r@) == split_pieces(s@, sep),
{
    let mut done: Vec<Vec<char>> = Vec::new();
    let mut cur: Vec<char> = Vec::new();
    let mut i: usize = 0;
    while i < s.len()
        invariant
            i <= s.len(),
            (views(done@), cur@) == scan_pieces(s@.take(i as int), sep),
        decreases s.len() - i,
    {
        assert(s@.take(i + 1).drop_last() =~= s@.take(i as int));
        if s[i] == sep {
            let ghost prev = done@;
            let piece = cur;
            cur = Vec::new();
            done.push(piece);
            assert(views(done@) =~= views(prev).push(piece@));
        } else {
            cur.push(s[i]);
        }
        i = i + 1;
    }
    assert(s@.take(i as int) =~= s@);
    let ghost prev = done@;
    let last = cur;
    done.push(last);
    assert(views(done@) =~= views(prev).push(last@));
    done
}

/// The words of `s`: its maximal runs of non-whitespace characters.
pub fn split_words(s: &Vec<char>) -> (r: Vec<Vec<char>>)
    ensures
        views(r@) == words(s@),
{
    let mut done: Vec<Vec<char>> = Vec::new();
    let mut cur: Vec<char> = Vec::new();
    let mut i: usize = 0;
    while i < s.len()
        invariant
            i <= s.len(),
            (views(done@), cur@) == scan_words(s@.take(i as int)),
        decreases s.len() - i,
    {
        assert(s@.take(i + 1).drop_last() =~= s@.take(i as int));
        if is_whitespace(s[i]) {
            if cur.len() > 0 {
                let ghost prev = done@;
                let word = cur;
                cur = Vec::new();
                done.push(word);
                assert(views(done@) =~= views(prev).push(word@));
            }
        } else {
            cur.push(s[i]);
        }
        i = i + 1;
    }
    assert(s@.take(i as int) =~= s@);
    if cur.len() > 0 {
        let ghost prev = done@;
        let word = cur;
        done.push(word);
        assert(views(done@) =~= views(prev).push(word@));
    }
    done
}

} // verus!
