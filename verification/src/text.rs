//! Character-level text handling shared by the probes: the pieces of `str`
//! that the sysfs, `system_profiler` and `vm_stat` readers rely on, stated
//! over `Seq<char>` so the parsers above them can be specified exactly.
use vstd::prelude::*;
use vstd::slice::slice_subrange;
use vstd::string::*;

verus! {

broadcast use vstd::string::group_string_axioms;

/// The characters of `s`, in order.
pub fn chars_of(s: &str) -> (v: Vec<char>)
    ensures
        v@ == s@,
{
    let mut v: Vec<char> = Vec::new();
    for c in it: s.chars()
        invariant
            it.seq() == s@,
            v@ == it.seq().take(it.index() as int),
    {
        v.push(c);
    }
    v
}

// ---------------------------------------------------------------------------
// Whitespace and trimming
// ---------------------------------------------------------------------------

/// Unicode `White_Space`, the set `char::is_whitespace` (and so `str::trim`
/// and `str::split_whitespace`) recognises.
pub open spec fn is_ws(c: char) -> bool {
    let u = c as u32;
    ||| 9 <= u <= 13
    ||| u == 32
    ||| u == 0x85
    ||| u == 0xA0
    ||| u == 0x1680
    ||| 0x2000 <= u <= 0x200A
    ||| u == 0x2028
    ||| u == 0x2029
    ||| u == 0x202F
    ||| u == 0x205F
    ||| u == 0x3000
}

/// Whether `c` is Unicode whitespace.
pub fn is_whitespace(c: char) -> (b: bool)
    ensures
        b == is_ws(c),
{
    let u = c as u32;
    (9 <= u && u <= 13) || u == 32 || u == 0x85 || u == 0xA0 || u == 0x1680 || (0x2000 <= u && u
        <= 0x200A) || u == 0x2028 || u == 0x2029 || u == 0x202F || u == 0x205F || u == 0x3000
}

/// `s` without its leading whitespace.
pub open spec fn trim_start(s: Seq<char>) -> Seq<char>
    decreases s.len(),
{
    if s.len() > 0 && is_ws(s[0]) {
        trim_start(s.drop_first())
    } else {
        s
    }
}

/// `s` without its trailing whitespace.
pub open spec fn trim_end(s: Seq<char>) -> Seq<char>
    decreases s.len(),
{
    if s.len() > 0 && is_ws(s.last()) {
        trim_end(s.drop_last())
    } else {
        s
    }
}

/// `str::trim`: `s` without leading or trailing whitespace.
pub open spec fn trim(s: Seq<char>) -> Seq<char> {
    trim_end(trim_start(s))
}

/// `trim_start(s)` is a suffix of `s`.
pub proof fn lemma_trim_start_suffix(s: Seq<char>)
    ensures
        trim_start(s).len() <= s.len(),
        trim_start(s) == s.skip(s.len() - trim_start(s).len()),
        trim_start(s).len() > 0 ==> !is_ws(trim_start(s)[0]),
    decreases s.len(),
{
    if s.len() > 0 && is_ws(s[0]) {
        lemma_trim_start_suffix(s.drop_first());
        assert(s.drop_first().skip(s.drop_first().len() - trim_start(s).len()) =~= s.skip(
            s.len() - trim_start(s).len(),
        ));
    } else {
        assert(s.skip(0) =~= s);
    }
}

/// `trim_end(s)` is a prefix of `s`.
pub proof fn lemma_trim_end_prefix(s: Seq<char>)
    ensures
        trim_end(s).len() <= s.len(),
        trim_end(s) == s.take(trim_end(s).len() as int),
        trim_end(s).len() > 0 ==> !is_ws(trim_end(s).last()),
    decreases s.len(),
{
    if s.len() > 0 && is_ws(s.last()) {
        lemma_trim_end_prefix(s.drop_last());
        assert(s.drop_last().take(trim_end(s).len() as int) =~= s.take(trim_end(s).len() as int));
    } else {
        assert(s.take(s.len() as int) =~= s);
    }
}

/// The bounds `(from, to)` of `trim(s@)` within `s`.
pub fn trim_bounds(s: &[char]) -> (r: (usize, usize))
    ensures
        r.0 <= r.1 <= s@.len(),
        s@.subrange(r.0 as int, r.1 as int) == trim(s@),
{
    let n = s.len();
    let mut i: usize = 0;
    assert(s@.skip(0) =~= s@);
    while i < n && is_whitespace(s[i])
        invariant
            i <= n == s@.len(),
            trim_start(s@) == trim_start(s@.skip(i as int)),
        decreases n - i,
    {
        assert(s@.skip(i as int).drop_first() =~= s@.skip(i + 1));
        i = i + 1;
    }
    assert(trim_start(s@) == s@.skip(i as int));
    let ghost t = s@.skip(i as int);
    let mut j: usize = n;
    while j > i && is_whitespace(s[j - 1])
        invariant
            i <= j <= n == s@.len(),
            t == s@.skip(i as int),
            trim_end(t) == trim_end(s@.subrange(i as int, j as int)),
        decreases j,
    {
        assert(s@.subrange(i as int, j as int).drop_last() =~= s@.subrange(i as int, j - 1));
        j = j - 1;
    }
    assert(s@.subrange(i as int, n as int) =~= t);
    (i, j)
}

/// `str::trim` on a slice of characters.
pub fn trimmed(s: &[char]) -> (r: &[char])
    ensures
        r@ == trim(s@),
{
    let (from, to) = trim_bounds(s);
    slice_subrange(s, from, to)
}

// ---------------------------------------------------------------------------
// Searching and splitting
// ---------------------------------------------------------------------------

/// Index of the first `c` in `s`.
pub open spec fn first_index(s: Seq<char>, c: char) -> Option<int>
    decreases s.len(),
{
    if s.len() == 0 {
        None
    } else if s[0] == c {
        Some(0)
    } else {
        match first_index(s.drop_first(), c) {
            Some(i) => Some(i + 1),
            None => None,
        }
    }
}

/// What `first_index` means.
pub proof fn lemma_first_index(s: Seq<char>, c: char)
    ensures
        match first_index(s, c) {
            Some(i) => 0 <= i < s.len() && s[i] == c && forall|j: int| 0 <= j < i ==> s[j] != c,
            None => forall|j: int| 0 <= j < s.len() ==> s[j] != c,
        },
    decreases s.len(),
{
    if s.len() > 0 && s[0] != c {
        lemma_first_index(s.drop_first(), c);
        match first_index(s.drop_first(), c) {
            Some(i) => {
                assert forall|j: int| 0 <= j < i + 1 implies s[j] != c by {
                    if j > 0 {
                        assert(s[j] == s.drop_first()[j - 1]);
                    }
                }
            },
            None => {
                assert forall|j: int| 0 <= j < s.len() implies s[j] != c by {
                    if j > 0 {
                        assert(s[j] == s.drop_first()[j - 1]);
                    }
                }
            },
        }
    }
}

/// A first occurrence found by a scan is the one `first_index` names.
pub proof fn lemma_first_index_is(s: Seq<char>, c: char, i: int)
    requires
        0 <= i < s.len(),
        s[i] == c,
        forall|j: int| 0 <= j < i ==> s[j] != c,
    ensures
        first_index(s, c) == Some(i),
{
    lemma_first_index(s, c);
}

/// Index of the first `c` in `s`.
pub fn find_char(s: &[char], c: char) -> (r: Option<usize>)
    ensures
        r matches Some(i) ==> first_index(s@, c) == Some(i as int),
        r is None ==> first_index(s@, c) is None,
{
    let n = s.len();
    let mut i: usize = 0;
    while i < n
        invariant
            i <= n == s@.len(),
            forall|j: int| 0 <= j < i ==> s@[j] != c,
        decreases n - i,
    {
        if s[i] == c {
            proof {
                lemma_first_index_is(s@, c, i as int);
            }
            return Some(i);
        }
        i = i + 1;
    }
    proof {
        lemma_first_index(s@, c);
    }
    None
}

/// `str::split(c)`: the pieces of `s` between occurrences of `c`.
pub open spec fn split_char(s: Seq<char>, c: char) -> Seq<Seq<char>>
    decreases s.len(),
{
    match first_index(s, c) {
        None => seq![s],
        Some(i) => if 0 <= i < s.len() {
            seq![s.take(i)] + split_char(s.skip(i + 1), c)
        } else {
            seq![s]
        },
    }
}

/// `s` up to (not including) its first `c`, or all of `s`.
pub open spec fn before_char(s: Seq<char>, c: char) -> Seq<char> {
    match first_index(s, c) {
        Some(i) => s.take(i),
        None => s,
    }
}

/// `str::split(c).next()`, which always yields: the piece before the first `c`.
pub proof fn lemma_split_first(s: Seq<char>, c: char)
    ensures
        split_char(s, c).len() >= 1,
        split_char(s, c)[0] == before_char(s, c),
{
    lemma_first_index(s, c);
}

/// `s` up to its first `c`.
pub fn until_char(s: &[char], c: char) -> (r: &[char])
    ensures
        r@ == before_char(s@, c),
{
    match find_char(s, c) {
        Some(i) => {
            proof {
                lemma_first_index(s@, c);
            }
            slice_subrange(s, 0, i)
        },
        None => {
            assert(s@.subrange(0, s@.len() as int) =~= s@);
            slice_subrange(s, 0, s.len())
        },
    }
}

/// The pieces of `s` split at `c`, as slices.
pub fn split_on(s: &[char], c: char) -> (r: Vec<&[char]>)
    ensures
        r@.len() == split_char(s@, c).len(),
        forall|k: int| 0 <= k < r@.len() ==> #[trigger] r@[k]@ == split_char(s@, c)[k],
{
    let n = s.len();
    let mut out: Vec<&[char]> = Vec::new();
    let mut pos: usize = 0;
    assert(s@.skip(0) =~= s@);
    loop
        invariant
            pos <= n == s@.len(),
            split_char(s@, c).len() == out@.len() + split_char(s@.skip(pos as int), c).len(),
            forall|k: int| 0 <= k < out@.len() ==> #[trigger] out@[k]@ == split_char(s@, c)[k],
            forall|k: int|
                0 <= k < split_char(s@.skip(pos as int), c).len() ==> split_char(s@, c)[out@.len()
                    + k] == #[trigger] split_char(s@.skip(pos as int), c)[k],
        decreases n - pos,
    {
        let rest = slice_subrange(s, pos, n);
        assert(rest@ =~= s@.skip(pos as int));
        proof {
            lemma_first_index(rest@, c);
        }
        match find_char(rest, c) {
            None => {
                let ghost before = out@;
                out.push(rest);
                assert(split_char(rest@, c) == seq![rest@]);
                assert forall|k: int| 0 <= k < out@.len() implies #[trigger] out@[k]@ == split_char(
                    s@,
                    c,
                )[k] by {
                    if k == before.len() {
                        assert(split_char(s@.skip(pos as int), c)[0] == rest@);
                    }
                }
                return out;
            },
            Some(i) => {
                let ghost before = out@;
                let piece = slice_subrange(rest, 0, i);
                out.push(piece);
                let ghost r = s@.skip(pos as int);
                assert(split_char(r, c) == seq![r.take(i as int)] + split_char(
                    r.skip(i + 1),
                    c,
                ));
                assert(r.skip(i + 1) =~= s@.skip(pos + i + 1));
                assert(piece@ =~= r.take(i as int));
                assert forall|k: int| 0 <= k < out@.len() implies #[trigger] out@[k]@ == split_char(
                    s@,
                    c,
                )[k] by {
                    if k == before.len() {
                        assert(split_char(s@.skip(pos as int), c)[0] == r.take(i as int));
                    }
                }
                assert forall|k: int|
                    0 <= k < split_char(s@.skip(pos + i + 1), c).len() implies split_char(
                    s@,
                    c,
                )[out@.len() + k] == #[trigger] split_char(s@.skip(pos + i + 1), c)[k] by {
                    assert(split_char(r, c)[k + 1] == split_char(r.skip(i + 1), c)[k]);
                }
                pos = pos + i + 1;
            },
        }
    }
}

// ---------------------------------------------------------------------------
// Prefixes and substrings
// ---------------------------------------------------------------------------

/// `str::strip_prefix`: what follows `p` when `s` begins with it.
pub open spec fn strip_prefix(s: Seq<char>, p: Seq<char>) -> Option<Seq<char>> {
    if p.len() <= s.len() && s.take(p.len() as int) == p {
        Some(s.skip(p.len() as int))
    } else {
        None
    }
}

/// Whether two character sequences are equal.
pub fn same_chars(a: &[char], b: &[char]) -> (r: bool)
    ensures
        r == (a@ == b@),
{
    if a.len() != b.len() {
        return false;
    }
    let n = a.len();
    let mut i: usize = 0;
    while i < n
        invariant
            i <= n == a@.len() == b@.len(),
            forall|j: int| 0 <= j < i ==> a@[j] == b@[j],
        decreases n - i,
    {
        if a[i] != b[i] {
            return false;
        }
        i = i + 1;
    }
    assert(a@ =~= b@);
    true
}

/// `str::strip_prefix` on slices.
pub fn after_prefix<'a>(s: &'a [char], p: &[char]) -> (r: Option<&'a [char]>)
    ensures
        r matches Some(rest) ==> strip_prefix(s@, p@) == Some(rest@),
        r is None ==> strip_prefix(s@, p@) is None,
{
    if p.len() > s.len() {
        return None;
    }
    let head = slice_subrange(s, 0, p.len());
    if same_chars(head, p) {
        Some(slice_subrange(s, p.len(), s.len()))
    } else {
        None
    }
}

/// Whether `p` occurs in `s` at `i`.
pub open spec fn occurs_at(s: Seq<char>, p: Seq<char>, i: int) -> bool {
    0 <= i && i + p.len() <= s.len() && s.subrange(i, i + p.len()) == p
}

/// Index of the leftmost occurrence of `p` in `s`.
pub open spec fn find_sub(s: Seq<char>, p: Seq<char>) -> Option<int> {
    if exists|i: int| occurs_at(s, p, i) {
        Some(choose|i: int| occurs_at(s, p, i) && forall|j: int| 0 <= j < i ==> !occurs_at(s, p, j))
    } else {
        None
    }
}

/// `str::split_once(p)` with a non-empty `p`: the text around its leftmost
/// occurrence.
pub open spec fn split_once(s: Seq<char>, p: Seq<char>) -> Option<(Seq<char>, Seq<char>)> {
    match find_sub(s, p) {
        Some(i) => Some((s.take(i), s.skip(i + p.len()))),
        None => None,
    }
}

/// A leftmost occurrence found by a scan is the one `find_sub` names.
proof fn lemma_find_sub_is(s: Seq<char>, p: Seq<char>, i: int)
    requires
        occurs_at(s, p, i),
        forall|j: int| 0 <= j < i ==> !occurs_at(s, p, j),
    ensures
        find_sub(s, p) == Some(i),
{
    let k = choose|k: int| occurs_at(s, p, k) && forall|j: int| 0 <= j < k ==> !occurs_at(s, p, j);
    assert(occurs_at(s, p, k) && forall|j: int| 0 <= j < k ==> !occurs_at(s, p, j));
    if k < i {
        assert(!occurs_at(s, p, k));
    }
    if i < k {
        assert(!occurs_at(s, p, i));
    }
}

/// `str::split_once` with a non-empty pattern.
pub fn split_at_first<'a>(s: &'a [char], p: &[char]) -> (r: Option<(&'a [char], &'a [char])>)
    ensures
        r matches Some((a, b)) ==> split_once(s@, p@) == Some((a@, b@)),
        r is None ==> split_once(s@, p@) is None,
{
    let n = s.len();
    let m = p.len();
    if m > n {
        assert forall|i: int| !occurs_at(s@, p@, i) by {}
        return None;
    }
    let last = n - m;
    let mut i: usize = 0;
    loop
        invariant
            m <= n == s@.len(),
            m == p@.len(),
            last == n - m,
            i <= last,
            forall|j: int| 0 <= j < i ==> !occurs_at(s@, p@, j),
        ensures
            forall|j: int| 0 <= j <= last ==> !occurs_at(s@, p@, j),
        decreases last - i,
    {
        let window = slice_subrange(s, i, i + m);
        if same_chars(window, p) {
            let ghost k = i as int;
            proof {
                lemma_find_sub_is(s@, p@, k);
            }
            let a = slice_subrange(s, 0, i);
            let b = slice_subrange(s, i + m, n);
            assert(split_once(s@, p@) == Some((s@.take(k), s@.skip(k + m))));
            assert(a@ =~= s@.take(k));
            assert(b@ =~= s@.skip(k + m));
            return Some((a, b));
        }
        assert(!occurs_at(s@, p@, i as int));
        if i == last {
            break;
        }
        i = i + 1;
    }
    assert(!exists|j: int| occurs_at(s@, p@, j));
    None
}

// ---------------------------------------------------------------------------
// Lines and words
// ---------------------------------------------------------------------------

/// A line without the `\r` of its `\r\n` terminator.
pub open spec fn strip_cr(line: Seq<char>) -> Seq<char> {
    if line.len() > 0 && line.last() == '\r' {
        line.drop_last()
    } else {
        line
    }
}

/// `str::lines`: split at `\n`, dropping a `\r` just before it; a final
/// line ending is optional, and its absence keeps a trailing `\r`.
pub open spec fn lines(s: Seq<char>) -> Seq<Seq<char>>
    decreases s.len(),
{
    if s.len() == 0 {
        seq![]
    } else {
        match first_index(s, '\n') {
            None => seq![s],
            Some(i) => if 0 <= i < s.len() {
                seq![strip_cr(s.take(i))] + lines(s.skip(i + 1))
            } else {
                seq![s]
            },
        }
    }
}

/// The lines of `s`, as slices.
pub fn lines_of(s: &[char]) -> (r: Vec<&[char]>)
    ensures
        r@.len() == lines(s@).len(),
        forall|k: int| 0 <= k < r@.len() ==> #[trigger] r@[k]@ == lines(s@)[k],
{
    let n = s.len();
    let mut out: Vec<&[char]> = Vec::new();
    let mut pos: usize = 0;
    assert(s@.skip(0) =~= s@);
    while pos < n
        invariant
            pos <= n == s@.len(),
            lines(s@).len() == out@.len() + lines(s@.skip(pos as int)).len(),
            forall|k: int| 0 <= k < out@.len() ==> #[trigger] out@[k]@ == lines(s@)[k],
            forall|k: int|
                0 <= k < lines(s@.skip(pos as int)).len() ==> lines(s@)[out@.len() + k]
                    == #[trigger] lines(s@.skip(pos as int))[k],
        decreases n - pos,
    {
        let rest = slice_subrange(s, pos, n);
        let ghost r = s@.skip(pos as int);
        assert(rest@ =~= r);
        proof {
            lemma_first_index(r, '\n');
        }
        let ghost before = out@;
        match find_char(rest, '\n') {
            None => {
                out.push(rest);
                assert(lines(r) == seq![r]);
                assert forall|k: int| 0 <= k < out@.len() implies #[trigger] out@[k]@ == lines(
                    s@,
                )[k] by {
                    if k == before.len() {
                        assert(lines(r)[0] == r);
                    }
                }
                assert(lines(s@).len() == out@.len());
                return out;
            },
            Some(i) => {
                let line = if i > 0 && rest[i - 1] == '\r' {
                    slice_subrange(rest, 0, i - 1)
                } else {
                    slice_subrange(rest, 0, i)
                };
                assert(line@ =~= strip_cr(r.take(i as int)));
                out.push(line);
                assert(lines(r) == seq![strip_cr(r.take(i as int))] + lines(r.skip(i + 1)));
                assert(r.skip(i + 1) =~= s@.skip(pos + i + 1));
                assert forall|k: int| 0 <= k < out@.len() implies #[trigger] out@[k]@ == lines(
                    s@,
                )[k] by {
                    if k == before.len() {
                        assert(lines(r)[0] == strip_cr(r.take(i as int)));
                    }
                }
                assert forall|k: int|
                    0 <= k < lines(s@.skip(pos + i + 1)).len() implies lines(s@)[out@.len() + k]
                    == #[trigger] lines(s@.skip(pos + i + 1))[k] by {
                    assert(lines(r)[k + 1] == lines(r.skip(i + 1))[k]);
                }
                pos = pos + i + 1;
            },
        }
    }
    assert(s@.skip(pos as int) =~= Seq::<char>::empty());
    out
}


/// `c` with ASCII upper case letters mapped to lower case.
pub open spec fn lower(c: char) -> char {
    if 65 <= (c as u32) <= 90 {
        ((c as u32) + 32) as char
    } else {
        c
    }
}

/// `c` with ASCII lower case letters mapped to upper case.
pub open spec fn upper(c: char) -> char {
    if 97 <= (c as u32) <= 122 {
        ((c as u32) - 32) as char
    } else {
        c
    }
}

/// `str::to_ascii_lowercase`.
pub open spec fn lowercase(s: Seq<char>) -> Seq<char> {
    s.map_values(|c: char| lower(c))
}

/// `str::to_ascii_uppercase`.
pub open spec fn uppercase(s: Seq<char>) -> Seq<char> {
    s.map_values(|c: char| upper(c))
}

/// `char::to_ascii_lowercase`.
pub fn lower_char(c: char) -> (r: char)
    ensures
        r == lower(c),
{
    let u = c as u32;
    if 65 <= u && u <= 90 {
        let b = (u + 32) as u8;
        b as char
    } else {
        c
    }
}

/// `char::to_ascii_uppercase`.
pub fn upper_char(c: char) -> (r: char)
    ensures
        r == upper(c),
{
    let u = c as u32;
    if 97 <= u && u <= 122 {
        let b = (u - 32) as u8;
        b as char
    } else {
        c
    }
}


/// `str::to_ascii_lowercase` on a slice.
pub fn to_lowercase(s: &[char]) -> (r: Vec<char>)
    ensures
        r@ == lowercase(s@),
{
    let mut out: Vec<char> = Vec::new();
    let n = s.len();
    let mut i: usize = 0;
    while i < n
        invariant
            i <= n == s@.len(),
            out@ == lowercase(s@.take(i as int)),
        decreases n - i,
    {
        out.push(lower_char(s[i]));
        i = i + 1;
        assert(lowercase(s@.take(i as int)) =~= lowercase(s@.take(i - 1)).push(lower(s@[i - 1])));
    }
    assert(s@.take(n as int) =~= s@);
    out
}

/// `str::to_ascii_uppercase` on a slice.
pub fn to_uppercase(s: &[char]) -> (r: Vec<char>)
    ensures
        r@ == uppercase(s@),
{
    let mut out: Vec<char> = Vec::new();
    let n = s.len();
    let mut i: usize = 0;
    while i < n
        invariant
            i <= n == s@.len(),
            out@ == uppercase(s@.take(i as int)),
        decreases n - i,
    {
        out.push(upper_char(s[i]));
        i = i + 1;
        assert(uppercase(s@.take(i as int)) =~= uppercase(s@.take(i - 1)).push(upper(s@[i - 1])));
    }
    assert(s@.take(n as int) =~= s@);
    out
}

/// Length of the run of non-whitespace that starts `t`.
pub open spec fn word_len(t: Seq<char>) -> int
    decreases t.len(),
{
    if t.len() == 0 || is_ws(t[0]) {
        0
    } else {
        1 + word_len(t.drop_first())
    }
}

proof fn lemma_word_len(t: Seq<char>)
    ensures
        0 <= word_len(t) <= t.len(),
        t.len() > 0 && !is_ws(t[0]) ==> word_len(t) > 0,
    decreases t.len(),
{
    if t.len() > 0 && !is_ws(t[0]) {
        lemma_word_len(t.drop_first());
    }
}

/// `str::split_whitespace`: the maximal runs of non-whitespace in `s`.
pub open spec fn words(s: Seq<char>) -> Seq<Seq<char>>
    decreases s.len(),
{
    let t = trim_start(s);
    let w = word_len(t);
    if t.len() == 0 {
        seq![]
    } else if 0 < w <= t.len() && t.len() <= s.len() {
        seq![t.take(w)] + words(t.skip(w))
    } else {
        seq![]
    }
}

/// The words of `s`, as slices.
pub fn words_of(s: &[char]) -> (r: Vec<&[char]>)
    ensures
        r@.len() == words(s@).len(),
        forall|k: int| 0 <= k < r@.len() ==> #[trigger] r@[k]@ == words(s@)[k],
{
    let n = s.len();
    let mut out: Vec<&[char]> = Vec::new();
    let mut pos: usize = 0;
    assert(s@.skip(0) =~= s@);
    loop
        invariant
            pos <= n == s@.len(),
            words(s@).len() == out@.len() + words(s@.skip(pos as int)).len(),
            forall|k: int| 0 <= k < out@.len() ==> #[trigger] out@[k]@ == words(s@)[k],
            forall|k: int|
                0 <= k < words(s@.skip(pos as int)).len() ==> words(s@)[out@.len() + k]
                    == #[trigger] words(s@.skip(pos as int))[k],
        decreases n - pos,
    {
        let ghost r = s@.skip(pos as int);
        let mut i: usize = pos;
        assert(s@.skip(i as int) =~= r);
        while i < n && is_whitespace(s[i])
            invariant
                pos <= i <= n == s@.len(),
                r == s@.skip(pos as int),
                trim_start(r) == trim_start(s@.skip(i as int)),
            decreases n - i,
        {
            assert(s@.skip(i as int).drop_first() =~= s@.skip(i + 1));
            i = i + 1;
        }
        let ghost t = s@.skip(i as int);
        assert(trim_start(r) == t);
        proof {
            lemma_trim_start_suffix(r);
        }
        if i == n {
            assert(t.len() == 0);
            assert(words(r).len() == 0);
            return out;
        }
        let mut j: usize = i;
        assert(s@.skip(j as int) =~= t);
        while j < n && !is_whitespace(s[j])
            invariant
                i <= j <= n == s@.len(),
                t == s@.skip(i as int),
                word_len(t) == (j - i) + word_len(s@.skip(j as int)),
            decreases n - j,
        {
            assert(s@.skip(j as int).drop_first() =~= s@.skip(j + 1));
            j = j + 1;
        }
        assert(word_len(s@.skip(j as int)) == 0);
        proof {
            lemma_word_len(t);
        }
        let ghost before = out@;
        let w = slice_subrange(s, i, j);
        assert(w@ =~= t.take(j - i));
        out.push(w);
        assert(words(r) == seq![t.take(j - i)] + words(t.skip(j - i)));
        assert(t.skip(j - i) =~= s@.skip(j as int));
        assert forall|k: int| 0 <= k < out@.len() implies #[trigger] out@[k]@ == words(s@)[k] by {
            if k == before.len() {
                assert(words(r)[0] == t.take(j - i));
            }
        }
        assert forall|k: int|
            0 <= k < words(s@.skip(j as int)).len() implies words(s@)[out@.len() + k]
            == #[trigger] words(s@.skip(j as int))[k] by {
            assert(words(r)[k + 1] == words(t.skip(j - i))[k]);
        }
        pos = j;
    }
}

// ---------------------------------------------------------------------------
// Unsigned integers
// ---------------------------------------------------------------------------

/// The value of one digit, decimal or (when `hex`) hexadecimal in either case.
pub open spec fn digit_of(c: char, hex: bool) -> Option<nat> {
    let u = c as u32;
    if 48 <= u <= 57 {
        Some((u - 48) as nat)
    } else if hex && 97 <= u <= 102 {
        Some((u - 87) as nat)
    } else if hex && 65 <= u <= 70 {
        Some((u - 55) as nat)
    } else {
        None
    }
}

/// The value of a run of digits, or `None` when one is not a digit.
pub open spec fn digits_value(d: Seq<char>, hex: bool) -> Option<nat>
    decreases d.len(),
{
    if d.len() == 0 {
        Some(0)
    } else {
        match (digits_value(d.drop_last(), hex), digit_of(d.last(), hex)) {
            (Some(a), Some(b)) => Some(
                if hex {
                    a * 16 + b
                } else {
                    a * 10 + b
                },
            ),
            _ => None,
        }
    }
}

/// `from_str_radix` for an unsigned type whose largest value is `max`: an
/// optional `+`, then at least one digit, and a value that fits.
pub open spec fn parse_uint(s: Seq<char>, hex: bool, max: nat) -> Option<nat> {
    let d = if s.len() > 0 && s[0] == '+' {
        s.drop_first()
    } else {
        s
    };
    if d.len() == 0 {
        None
    } else {
        match digits_value(d, hex) {
            Some(v) => if v <= max {
                Some(v)
            } else {
                None
            },
            None => None,
        }
    }
}

/// A digit that is not one spoils the whole run.
proof fn lemma_digits_invalid(d: Seq<char>, hex: bool, k: int)
    requires
        0 <= k < d.len(),
        digit_of(d[k], hex) is None,
    ensures
        digits_value(d, hex) is None,
    decreases d.len(),
{
    if k < d.len() - 1 {
        lemma_digits_invalid(d.drop_last(), hex, k);
    }
}

/// A run's value is at least that of any of its prefixes.
proof fn lemma_digits_prefix(d: Seq<char>, hex: bool, k: int)
    requires
        0 <= k <= d.len(),
        digits_value(d, hex) is Some,
    ensures
        digits_value(d.take(k), hex) is Some,
        digits_value(d.take(k), hex)->0 <= digits_value(d, hex)->0,
    decreases d.len(),
{
    if k == d.len() {
        assert(d.take(k) =~= d);
    } else {
        lemma_digits_prefix(d.drop_last(), hex, k);
        assert(d.drop_last().take(k) =~= d.take(k));
    }
}

/// Parse an unsigned integer no larger than `max`, the way `str::parse` and
/// `from_str_radix` do for the unsigned types.
pub fn parse_unsigned(s: &[char], hex: bool, max: u64) -> (r: Option<u64>)
    ensures
        r matches Some(v) ==> parse_uint(s@, hex, max as nat) == Some(v as nat),
        r is None ==> parse_uint(s@, hex, max as nat) is None,
{
    let d = if s.len() > 0 && s[0] == '+' {
        slice_subrange(s, 1, s.len())
    } else {
        s
    };
    assert(s.len() > 0 && s@[0] == '+' ==> d@ =~= s@.drop_first());
    let n = d.len();
    if n == 0 {
        return None;
    }
    let mut acc: u64 = 0;
    let mut i: usize = 0;
    assert(d@.take(0) =~= Seq::<char>::empty());
    while i < n
        invariant
            i <= n == d@.len(),
            acc <= max,
            d@ == (if s@.len() > 0 && s@[0] == '+' {
                s@.drop_first()
            } else {
                s@
            }),
            digits_value(d@.take(i as int), hex) == Some(acc as nat),
        decreases n - i,
    {
        let c = d[i];
        let u = c as u32;
        let digit: u32 = if 48 <= u && u <= 57 {
            u - 48
        } else if hex && 97 <= u && u <= 102 {
            u - 87
        } else if hex && 65 <= u && u <= 70 {
            u - 55
        } else {
            proof {
                lemma_digits_invalid(d@, hex, i as int);
            }
            return None;
        };
        assert(d@.take(i + 1).drop_last() =~= d@.take(i as int));
        let next: u128 = if hex {
            (acc as u128) * 16 + (digit as u128)
        } else {
            (acc as u128) * 10 + (digit as u128)
        };
        assert(digits_value(d@.take(i + 1), hex) == Some(next as nat));
        if next > max as u128 {
            proof {
                if digits_value(d@, hex) is Some {
                    lemma_digits_prefix(d@, hex, i + 1);
                }
            }
            return None;
        }
        acc = next as u64;
        i = i + 1;
    }
    assert(d@.take(n as int) =~= d@);
    Some(acc)
}


// ---------------------------------------------------------------------------
// Building output text
// ---------------------------------------------------------------------------

/// `String::push`, from std: appends one character to the string.
#[verifier::external_body]
pub(crate) fn push_char(s: &mut String, c: char)
    ensures
        final(s)@ == old(s)@.push(c),
{
    s.push(c);
}

/// Append every character of `chars` to `out`.
pub fn push_chars(out: &mut String, chars: &[char])
    ensures
        final(out)@ == old(out)@ + chars@,
{
    let n = chars.len();
    let mut i: usize = 0;
    while i < n
        invariant
            i <= n == chars@.len(),
            out@ == old(out)@ + chars@.take(i as int),
        decreases n - i,
    {
        push_char(out, chars[i]);
        i = i + 1;
        assert(chars@.take(i as int) =~= chars@.take(i - 1).push(chars@[i - 1]));
    }
    assert(chars@.take(n as int) =~= chars@);
}

/// The character of a digit value below 16 (lower case beyond 9).
pub open spec fn digit_char(d: nat) -> char {
    if d < 10 {
        (48 + d) as char
    } else {
        (87 + d) as char
    }
}

/// `n` in decimal, as `{}` renders it.
pub open spec fn dec(n: nat) -> Seq<char>
    decreases n,
{
    if n < 10 {
        seq![digit_char(n)]
    } else {
        dec(n / 10).push(digit_char(n % 10))
    }
}

/// `n` in lower-case hexadecimal, as `{:x}` renders it.
pub open spec fn hex(n: nat) -> Seq<char>
    decreases n,
{
    if n < 16 {
        seq![digit_char(n)]
    } else {
        hex(n / 16).push(digit_char(n % 16))
    }
}

fn digit_to_char(d: u64) -> (c: char)
    requires
        d < 16,
    ensures
        c == digit_char(d as nat),
{
    if d < 10 {
        ((48 + d) as u8) as char
    } else {
        ((87 + d) as u8) as char
    }
}

/// Append `n` in decimal.
pub fn push_dec(out: &mut String, n: u64)
    ensures
        final(out)@ == old(out)@ + dec(n as nat),
    decreases n,
{
    if n < 10 {
        push_char(out, digit_to_char(n));
        assert(dec(n as nat) == seq![digit_char(n as nat)]);
        assert(old(out)@.push(digit_char(n as nat)) =~= old(out)@ + dec(n as nat));
    } else {
        push_dec(out, n / 10);
        push_char(out, digit_to_char(n % 10));
        assert(old(out)@ + dec(n as nat) =~= old(out)@ + dec((n / 10) as nat) + seq![
            digit_char((n % 10) as nat),
        ]);
    }
}

/// Append `n` in lower-case hexadecimal.
pub fn push_hex(out: &mut String, n: u64)
    ensures
        final(out)@ == old(out)@ + hex(n as nat),
    decreases n,
{
    if n < 16 {
        push_char(out, digit_to_char(n));
        assert(old(out)@.push(digit_char(n as nat)) =~= old(out)@ + hex(n as nat));
    } else {
        push_hex(out, n / 16);
        push_char(out, digit_to_char(n % 16));
        assert(old(out)@ + hex(n as nat) =~= old(out)@ + hex((n / 16) as nat) + seq![
            digit_char((n % 16) as nat),
        ]);
    }
}

/// Append the text of `s`.
pub fn push_str(out: &mut String, s: &str)
    ensures
        final(out)@ == old(out)@ + s@,
{
    out.append(s);
}

// ---------------------------------------------------------------------------
// Reading rendered numbers back
// ---------------------------------------------------------------------------

/// `dec(n)` is a non-empty run of ASCII digits.
pub proof fn lemma_dec_digits(n: nat)
    ensures
        dec(n).len() >= 1,
        forall|i: int| 0 <= i < dec(n).len() ==> 48 <= (#[trigger] dec(n)[i]) as u32 <= 57,
    decreases n,
{
    if n >= 10 {
        lemma_dec_digits(n / 10);
        assert forall|i: int| 0 <= i < dec(n).len() implies 48 <= (#[trigger] dec(n)[i]) as u32
            <= 57 by {
            if i < dec(n / 10).len() {
                assert(dec(n)[i] == dec(n / 10)[i]);
            }
        }
    }
}

/// `dec(n)` reads back as `n`.
pub proof fn lemma_dec_value(n: nat)
    ensures
        digits_value(dec(n), false) == Some(n),
    decreases n,
{
    let d = n % 10;
    assert(((48 + d) as char) as u32 == 48 + d);
    assert(digit_of(digit_char(d), false) == Some(d));
    assert(dec(n).last() == digit_char(d));
    if n < 10 {
        assert(dec(n).drop_last() =~= Seq::<char>::empty());
        assert(digits_value(Seq::<char>::empty(), false) == Some(0nat));
    } else {
        lemma_dec_value(n / 10);
        assert(dec(n).drop_last() =~= dec(n / 10));
        assert((n / 10) * 10 + d == n);
    }
}

/// `dec(n)` parses as `n` under any bound `n` is within.
pub proof fn lemma_parse_dec(n: nat, max: nat)
    requires
        n <= max,
    ensures
        parse_uint(dec(n), false, max) == Some(n),
        trim(dec(n)) == dec(n),
{
    lemma_dec_digits(n);
    lemma_dec_value(n);
    lemma_trim_unchanged(dec(n));
}

/// Trimming leaves alone text that neither starts nor ends with whitespace.
pub proof fn lemma_trim_unchanged(s: Seq<char>)
    requires
        s.len() > 0 ==> !is_ws(s[0]) && !is_ws(s.last()),
    ensures
        trim(s) == s,
{
}

/// Text holding no `c` is its own piece before `c`, and splits into itself.
pub proof fn lemma_split_without(s: Seq<char>, c: char)
    requires
        forall|i: int| 0 <= i < s.len() ==> s[i] != c,
    ensures
        before_char(s, c) == s,
        split_char(s, c) == seq![s],
{
    lemma_first_index(s, c);
}

/// Splitting `x`, `c`, `rest` at `c`, when `x` holds no `c`, gives `x` and
/// then the pieces of `rest`.
pub proof fn lemma_split_after(x: Seq<char>, rest: Seq<char>, c: char)
    requires
        forall|i: int| 0 <= i < x.len() ==> x[i] != c,
    ensures
        split_char(x + seq![c] + rest, c) == seq![x] + split_char(rest, c),
{
    let s = x + seq![c] + rest;
    assert forall|j: int| 0 <= j < x.len() implies s[j] != c by {
        assert(s[j] == x[j]);
    }
    assert(s[x.len() as int] == c);
    lemma_first_index_is(s, c, x.len() as int);
    assert(s.take(x.len() as int) =~= x);
    assert(s.skip(x.len() + 1int) =~= rest);
}

// ---------------------------------------------------------------------------
// Trimming and cutting around appended text
// ---------------------------------------------------------------------------

/// Whether every character of `w` is whitespace.
pub open spec fn all_ws(w: Seq<char>) -> bool {
    forall|i: int| 0 <= i < w.len() ==> is_ws(#[trigger] w[i])
}

/// Text that is all whitespace trims to nothing at its start.
pub proof fn lemma_trim_start_all_ws(w: Seq<char>)
    requires
        all_ws(w),
    ensures
        trim_start(w) == Seq::<char>::empty(),
    decreases w.len(),
{
    if w.len() > 0 {
        assert(is_ws(w[0]));
        assert forall|i: int| 0 <= i < w.drop_first().len() implies is_ws(
            #[trigger] w.drop_first()[i],
        ) by {
            assert(w.drop_first()[i] == w[i + 1]);
        }
        lemma_trim_start_all_ws(w.drop_first());
    } else {
        assert(w =~= Seq::<char>::empty());
    }
}

/// Trimming the start of `x + y`: `trim_start(x)` followed by `y`, unless
/// `x` is all whitespace, when it is `trim_start(y)`.
pub proof fn lemma_trim_start_concat(x: Seq<char>, y: Seq<char>)
    ensures
        trim_start(x + y) == if trim_start(x).len() > 0 {
            trim_start(x) + y
        } else {
            trim_start(y)
        },
    decreases x.len(),
{
    if x.len() == 0 {
        assert(x + y =~= y);
    } else if is_ws(x[0]) {
        assert((x + y)[0] == x[0]);
        assert((x + y).drop_first() =~= x.drop_first() + y);
        lemma_trim_start_concat(x.drop_first(), y);
    } else {
        assert((x + y)[0] == x[0]);
    }
}

/// Whitespace appended to `y` does not survive trimming its end.
pub proof fn lemma_trim_end_ws_tail(y: Seq<char>, w: Seq<char>)
    requires
        all_ws(w),
    ensures
        trim_end(y + w) == trim_end(y),
    decreases w.len(),
{
    if w.len() == 0 {
        assert(y + w =~= y);
    } else {
        assert((y + w).last() == w.last());
        assert(is_ws(w[w.len() - 1]));
        assert((y + w).drop_last() =~= y + w.drop_last());
        assert forall|i: int| 0 <= i < w.drop_last().len() implies is_ws(
            #[trigger] w.drop_last()[i],
        ) by {
            assert(w.drop_last()[i] == w[i]);
        }
        lemma_trim_end_ws_tail(y, w.drop_last());
    }
}

/// Trimming the end of `a + b`, when `a` ends in a character that is not
/// whitespace, only trims `b`.
pub proof fn lemma_trim_end_concat(a: Seq<char>, b: Seq<char>)
    requires
        a.len() > 0,
        !is_ws(a.last()),
    ensures
        trim_end(a + b) == a + trim_end(b),
    decreases b.len(),
{
    if b.len() == 0 {
        assert(a + b =~= a);
        assert(a + Seq::<char>::empty() =~= a);
    } else {
        assert((a + b).last() == b.last());
        if is_ws(b.last()) {
            assert((a + b).drop_last() =~= a + b.drop_last());
            lemma_trim_end_concat(a, b.drop_last());
        }
    }
}

/// Trailing whitespace does not change what trimming leaves.
pub proof fn lemma_trim_ws_tail(x: Seq<char>, w: Seq<char>)
    requires
        all_ws(w),
    ensures
        trim(x + w) == trim(x),
{
    lemma_trim_start_concat(x, w);
    if trim_start(x).len() > 0 {
        lemma_trim_end_ws_tail(trim_start(x), w);
    } else {
        lemma_trim_start_all_ws(w);
        assert(trim_start(x) =~= Seq::<char>::empty());
    }
}

/// `x` is its trimmed end followed by whitespace.
pub proof fn lemma_trim_end_split(x: Seq<char>)
    ensures
        x == trim_end(x) + x.skip(trim_end(x).len() as int),
        all_ws(x.skip(trim_end(x).len() as int)),
    decreases x.len(),
{
    if x.len() > 0 && is_ws(x.last()) {
        lemma_trim_end_split(x.drop_last());
        lemma_trim_end_prefix(x.drop_last());
        assert(trim_end(x) == trim_end(x.drop_last()));
        let k = trim_end(x).len() as int;
        assert(x =~= x.drop_last().push(x.last()));
        assert(x.skip(k) =~= x.drop_last().skip(k).push(x.last()));
        assert forall|i: int| 0 <= i < x.skip(k).len() implies is_ws(#[trigger] x.skip(k)[i]) by {
            if i < x.skip(k).len() - 1 {
                assert(x.skip(k)[i] == x.drop_last().skip(k)[i]);
            }
        }
        assert(trim_end(x) + x.skip(k) =~= (trim_end(x) + x.drop_last().skip(k)).push(x.last()));
    } else {
        assert(x.skip(x.len() as int) =~= Seq::<char>::empty());
        assert(x =~= x + Seq::<char>::empty());
    }
}

/// Text appended after the last `c` lands in the last piece of a split.
pub proof fn lemma_split_tail(v: Seq<char>, w: Seq<char>, c: char)
    requires
        forall|i: int| 0 <= i < w.len() ==> w[i] != c,
    ensures
        split_char(v + w, c).len() == split_char(v, c).len(),
        forall|k: int|
            0 <= k < split_char(v, c).len() - 1 ==> #[trigger] split_char(v + w, c)[k] == split_char(
                v,
                c,
            )[k],
        split_char(v + w, c).last() == split_char(v, c).last() + w,
    decreases v.len(),
{
    lemma_first_index(v, c);
    lemma_first_index(v + w, c);
    match first_index(v, c) {
        Some(i) => {
            assert((v + w)[i] == v[i]);
            assert forall|j: int| 0 <= j < i implies (v + w)[j] != c by {
                assert((v + w)[j] == v[j]);
            }
            lemma_first_index_is(v + w, c, i);
            assert((v + w).take(i) =~= v.take(i));
            assert((v + w).skip(i + 1) =~= v.skip(i + 1) + w);
            lemma_split_tail(v.skip(i + 1), w, c);
        },
        None => {
            assert forall|j: int| 0 <= j < (v + w).len() implies (v + w)[j] != c by {
                if j < v.len() {
                    assert((v + w)[j] == v[j]);
                } else {
                    assert((v + w)[j] == w[j - v.len()]);
                }
            }
            lemma_split_without(v + w, c);
        },
    }
}

/// Cutting `x`, `c`, `y` at the first `c`, when `x` holds none, leaves `x`.
pub proof fn lemma_before_at(x: Seq<char>, y: Seq<char>, c: char)
    requires
        forall|i: int| 0 <= i < x.len() ==> x[i] != c,
    ensures
        before_char(x + seq![c] + y, c) == x,
{
    let s = x + seq![c] + y;
    assert forall|j: int| 0 <= j < x.len() implies s[j] != c by {
        assert(s[j] == x[j]);
    }
    assert(s[x.len() as int] == c);
    lemma_first_index_is(s, c, x.len() as int);
    assert(s.take(x.len() as int) =~= x);
}

/// Cutting `x`, `d`, `y` at the first `c`, when neither `x` nor `d` is a
/// `c`, cuts within `y`.
pub proof fn lemma_before_past(x: Seq<char>, d: char, y: Seq<char>, c: char)
    requires
        forall|i: int| 0 <= i < x.len() ==> x[i] != c,
        d != c,
    ensures
        before_char(x + seq![d] + y, c) == x + seq![d] + before_char(y, c),
{
    let s = x + seq![d] + y;
    let n = x.len() + 1;
    lemma_first_index(y, c);
    assert forall|j: int| 0 <= j < n implies s[j] != c by {
        if j < x.len() {
            assert(s[j] == x[j]);
        } else {
            assert(s[j] == d);
        }
    }
    match first_index(y, c) {
        Some(i) => {
            assert(s[n + i] == y[i]);
            assert forall|j: int| 0 <= j < n + i implies s[j] != c by {
                if j >= n {
                    assert(s[j] == y[j - n]);
                }
            }
            lemma_first_index_is(s, c, n + i);
            assert(s.take(n + i) =~= x + seq![d] + y.take(i));
        },
        None => {
            lemma_first_index(s, c);
            assert forall|j: int| 0 <= j < s.len() implies s[j] != c by {
                if j >= n {
                    assert(s[j] == y[j - n]);
                }
            }
        },
    }
}

} // verus!
