use vstd::prelude::*;

verus! {

broadcast use vstd::string::group_string_axioms;

// ---------------------------------------------------------------------------
// Specifications
// ---------------------------------------------------------------------------

/// The pieces of `s` between the occurrences of `sep`, in order, as `str::split`
/// returns them: one more piece than there are separators, empty pieces included.
pub open spec fn split_on(s: Seq<char>, sep: char) -> Seq<Seq<char>>
    decreases s.len(),
{
    if s.len() == 0 {
        seq![Seq::<char>::empty()]
    } else {
        let pieces = split_on(s.drop_last(), sep);
        if s.last() == sep {
            pieces.push(Seq::<char>::empty())
        } else {
            pieces.update(pieces.len() - 1, pieces.last().push(s.last()))
        }
    }
}

/// The pieces joined with `sep` between consecutive ones, as `[String]::join` does.
pub open spec fn join_text(pieces: Seq<Seq<char>>, sep: Seq<char>) -> Seq<char>
    decreases pieces.len(),
{
    if pieces.len() == 0 {
        Seq::<char>::empty()
    } else if pieces.len() == 1 {
        pieces[0]
    } else {
        join_text(pieces.drop_last(), sep) + sep + pieces.last()
    }
}

/// The pieces joined with the character `sep` between consecutive ones.
pub open spec fn join_with(pieces: Seq<Seq<char>>, sep: char) -> Seq<char> {
    join_text(pieces, seq![sep])
}

/// Unicode's White_Space property, which `char::is_whitespace` tests and
/// `str::trim` strips.
pub open spec fn is_white_space(c: char) -> bool {
    let n = c as u32;
    ||| 0x09 <= n <= 0x0D
    ||| n == 0x20
    ||| n == 0x85
    ||| n == 0xA0
    ||| n == 0x1680
    ||| 0x2000 <= n <= 0x200A
    ||| n == 0x2028
    ||| n == 0x2029
    ||| n == 0x202F
    ||| n == 0x205F
    ||| n == 0x3000
}

/// `s` without its leading white space.
pub open spec fn trim_start(s: Seq<char>) -> Seq<char>
    decreases s.len(),
{
    if s.len() > 0 && is_white_space(s[0]) {
        trim_start(s.drop_first())
    } else {
        s
    }
}

/// `s` without its trailing white space.
pub open spec fn trim_end(s: Seq<char>) -> Seq<char>
    decreases s.len(),
{
    if s.len() > 0 && is_white_space(s.last()) {
        trim_end(s.drop_last())
    } else {
        s
    }
}

/// `s` without leading and trailing white space, as `str::trim` returns it.
pub open spec fn trim(s: Seq<char>) -> Seq<char> {
    trim_end(trim_start(s))
}

/// Whether `needle` occurs in `hay` as a contiguous run, as `str::contains` tests.
pub open spec fn has_substring(hay: Seq<char>, needle: Seq<char>) -> bool {
    exists|i: int| 0 <= i && i + needle.len() <= hay.len()
        && #[trigger] hay.subrange(i, i + needle.len()) == needle
}

/// The trimmed, non-empty pieces among `pieces`, in order.
pub open spec fn non_blank_trimmed(pieces: Seq<Seq<char>>) -> Seq<Seq<char>>
    decreases pieces.len(),
{
    if pieces.len() == 0 {
        Seq::<Seq<char>>::empty()
    } else {
        let kept = non_blank_trimmed(pieces.drop_last());
        let t = trim(pieces.last());
        if t.len() > 0 {
            kept.push(t)
        } else {
            kept
        }
    }
}

/// The lines of `s`, each trimmed, blank ones dropped: what
/// `s.lines().map(str::trim).filter(|l| !l.is_empty())` yields. (`lines` also
/// drops a `'\r'` before each line break, and `trim` strips it anyway.)
pub open spec fn trimmed_lines(s: Seq<char>) -> Seq<Seq<char>> {
    non_blank_trimmed(split_on(s, '\n'))
}

/// The views of a sequence of strings.
pub open spec fn strings_view(v: Seq<String>) -> Seq<Seq<char>> {
    v.map_values(|x: String| x@)
}

/// The views of a sequence of character vectors.
pub open spec fn pieces_view(v: Seq<Vec<char>>) -> Seq<Seq<char>> {
    v.map_values(|x: Vec<char>| x@)
}

/// What `str::to_lowercase` returns for a string (full Unicode case mapping).
pub uninterp spec fn lowercase(s: Seq<char>) -> Seq<char>;

// ---------------------------------------------------------------------------
// Calls into std that vstd does not specify
// ---------------------------------------------------------------------------

/// `String::push`: appends the character at the end of the string.
#[verifier::external_body]
pub(crate) fn push_char(s: &mut String, c: char)
    ensures
        final(s)@ == old(s)@.push(c),
{
    s.push(c);
}

/// `String::pop`: removes the last character and returns it; `None` and no
/// change on an empty string.
#[verifier::external_body]
pub(crate) fn pop_char(s: &mut String) -> (r: Option<char>)
    ensures
        old(s)@.len() == 0 ==> r is None && final(s)@ == old(s)@,
        old(s)@.len() > 0 ==> r == Some(old(s)@.last()) && final(s)@ == old(s)@.drop_last(),
{
    s.pop()
}

/// `str::to_lowercase`: the string with every character mapped to lower case
/// by Unicode's full case mapping. What that mapping is, is left to the name
/// `lowercase`.
#[verifier::external_body]
pub(crate) fn to_lowercase(s: &str) -> (r: String)
    ensures
        r@ == lowercase(s@),
{
    s.to_lowercase()
}

// ---------------------------------------------------------------------------
// Executable helpers
// ---------------------------------------------------------------------------

/// The characters of `s`, in order.
pub fn chars_of(s: &str) -> (v: Vec<char>)
    ensures
        v@ == s@,
{
    let mut v: Vec<char> = Vec::new();
    for c in it: s.chars()
        invariant
            it.seq() == s@,
            v@ == s@.take(it.index()),
    {
        v.push(c);
    }
    v
}

/// A string made of the characters `v[from..to]`.
pub fn string_from_chars(v: &Vec<char>, from: usize, to: usize) -> (s: String)
    requires
        from <= to <= v.len(),
    ensures
        s@ == v@.subrange(from as int, to as int),
{
    let mut s = String::new();
    let mut i = from;
    while i < to
        invariant
            from <= i <= to <= v.len(),
            s@ == v@.subrange(from as int, i as int),
        decreases to - i,
    {
        push_char(&mut s, v[i]);
        i += 1;
        assert(s@ =~= v@.subrange(from as int, i as int));
    }
    s
}

/// Whether two character sequences are equal.
pub fn chars_equal(a: &[char], b: &[char]) -> (r: bool)
    ensures
        r == (a@ == b@),
{
    if a.len() != b.len() {
        return false;
    }
    let mut i: usize = 0;
    while i < a.len()
        invariant
            a.len() == b.len(),
            i <= a.len(),
            forall|k: int| 0 <= k < i ==> a@[k] == b@[k],
        decreases a.len() - i,
    {
        if a[i] != b[i] {
            return false;
        }
        i += 1;
    }
    assert(a@ =~= b@);
    true
}

/// Whether `c` has Unicode's White_Space property.
pub fn is_white_space_char(c: char) -> (r: bool)
    ensures
        r == is_white_space(c),
{
    let n = c as u32;
    (0x09 <= n && n <= 0x0D) || n == 0x20 || n == 0x85 || n == 0xA0 || n == 0x1680
        || (0x2000 <= n && n <= 0x200A) || n == 0x2028 || n == 0x2029 || n == 0x202F
        || n == 0x205F || n == 0x3000
}

// ---------------------------------------------------------------------------
// Lemmas
// ---------------------------------------------------------------------------

/// Skipping a run of white space at the front is what `trim_start` does.
pub proof fn lemma_trim_start_at(s: Seq<char>, i: int)
    requires
        0 <= i <= s.len(),
        forall|k: int| 0 <= k < i ==> is_white_space(#[trigger] s[k]),
        i == s.len() || !is_white_space(s[i]),
    ensures
        trim_start(s) == s.subrange(i, s.len() as int),
    decreases i,
{
    if i == 0 {
        assert(s.subrange(0, s.len() as int) =~= s);
    } else {
        let t = s.drop_first();
        assert forall|k: int| 0 <= k < i - 1 implies is_white_space(#[trigger] t[k]) by {
            assert(t[k] == s[k + 1]);
        }
        lemma_trim_start_at(t, i - 1);
        assert(t.subrange(i - 1, t.len() as int) =~= s.subrange(i, s.len() as int));
    }
}

/// Dropping a run of white space at the back is what `trim_end` does.
pub proof fn lemma_trim_end_at(s: Seq<char>, j: int)
    requires
        0 <= j <= s.len(),
        forall|k: int| j <= k < s.len() ==> is_white_space(#[trigger] s[k]),
        j == 0 || !is_white_space(s[j - 1]),
    ensures
        trim_end(s) == s.take(j),
    decreases s.len() - j,
{
    if j == s.len() {
        assert(s.take(j) =~= s);
    } else {
        let t = s.drop_last();
        lemma_trim_end_at(t, j);
        assert(t.take(j) =~= s.take(j));
    }
}

/// Splitting always gives at least one piece.
pub proof fn lemma_split_nonempty(s: Seq<char>, sep: char)
    ensures
        split_on(s, sep).len() > 0,
    decreases s.len(),
{
    if s.len() > 0 {
        lemma_split_nonempty(s.drop_last(), sep);
    }
}

/// Splitting a sequence without separators gives the sequence itself.
pub proof fn lemma_split_no_sep(s: Seq<char>, sep: char)
    requires
        !s.contains(sep),
    ensures
        split_on(s, sep) == seq![s],
    decreases s.len(),
{
    if s.len() == 0 {
        assert(s =~= Seq::<char>::empty());
        assert(seq![s] =~= seq![Seq::<char>::empty()]);
    } else {
        let t = s.drop_last();
        assert(!t.contains(sep)) by {
            if t.contains(sep) {
                let k = choose|k: int| 0 <= k < t.len() && t[k] == sep;
                assert(s[k] == sep);
            }
        }
        lemma_split_no_sep(t, sep);
        assert(s[s.len() - 1] != sep);
        assert(t.push(s.last()) =~= s);
        assert(seq![t].update(0, t.push(s.last())) =~= seq![s]);
    }
}

/// Splitting `a`, a separator, then `b` without separators: the pieces of `a`,
/// then `b`.
pub proof fn lemma_split_append(a: Seq<char>, b: Seq<char>, sep: char)
    requires
        !b.contains(sep),
    ensures
        split_on(a + seq![sep] + b, sep) == split_on(a, sep).push(b),
    decreases b.len(),
{
    let s = a + seq![sep] + b;
    if b.len() == 0 {
        assert(s.drop_last() =~= a);
        assert(b =~= Seq::<char>::empty());
    } else {
        let b2 = b.drop_last();
        assert(!b2.contains(sep)) by {
            if b2.contains(sep) {
                let k = choose|k: int| 0 <= k < b2.len() && b2[k] == sep;
                assert(b[k] == sep);
            }
        }
        lemma_split_append(a, b2, sep);
        assert(s.drop_last() =~= a + seq![sep] + b2);
        assert(s.last() == b.last());
        assert(b[b.len() - 1] != sep);
        assert(b2.push(b.last()) =~= b);
        assert(split_on(a, sep).push(b2).update(split_on(a, sep).len() as int, b2.push(b.last()))
            =~= split_on(a, sep).push(b));
    }
}

/// Joining pieces that hold no separator and splitting again gives the pieces
/// back.
pub proof fn lemma_split_join(pieces: Seq<Seq<char>>, sep: char)
    requires
        pieces.len() > 0,
        forall|i: int| 0 <= i < pieces.len() ==> !(#[trigger] pieces[i]).contains(sep),
    ensures
        split_on(join_with(pieces, sep), sep) == pieces,
    decreases pieces.len(),
{
    if pieces.len() == 1 {
        lemma_split_no_sep(pieces[0], sep);
        assert(seq![pieces[0]] =~= pieces);
    } else {
        let init = pieces.drop_last();
        assert forall|i: int| 0 <= i < init.len() implies !(#[trigger] init[i]).contains(sep) by {
            assert(init[i] == pieces[i]);
        }
        lemma_split_join(init, sep);
        assert(!pieces[pieces.len() - 1].contains(sep));
        lemma_split_append(join_with(init, sep), pieces.last(), sep);
        assert(init.push(pieces.last()) =~= pieces);
    }
}

// ---------------------------------------------------------------------------
// Executable functions
// ---------------------------------------------------------------------------

/// The bounds of `v[from..to]` with white space trimmed off both ends.
pub fn trim_bounds(v: &Vec<char>, from: usize, to: usize) -> (r: (usize, usize))
    requires
        from <= to <= v.len(),
    ensures
        from <= r.0 <= r.1 <= to,
        v@.subrange(r.0 as int, r.1 as int) == trim(v@.subrange(from as int, to as int)),
{
    let ghost s = v@.subrange(from as int, to as int);
    let mut i = from;
    while i < to && is_white_space_char(v[i])
        invariant
            from <= i <= to <= v.len(),
            s == v@.subrange(from as int, to as int),
            forall|k: int| from <= k < i ==> is_white_space(#[trigger] v@[k]),
        decreases to - i,
    {
        i += 1;
    }
    proof {
        assert forall|k: int| 0 <= k < i - from implies is_white_space(#[trigger] s[k]) by {
            assert(s[k] == v@[from + k]);
        }
        lemma_trim_start_at(s, i - from);
        assert(s.subrange(i - from, s.len() as int) =~= v@.subrange(i as int, to as int));
    }
    let ghost t = v@.subrange(i as int, to as int);
    let mut j = to;
    while j > i && is_white_space_char(v[j - 1])
        invariant
            from <= i <= j <= to <= v.len(),
            t == v@.subrange(i as int, to as int),
            forall|k: int| j <= k < to ==> is_white_space(#[trigger] v@[k]),
        decreases j - i,
    {
        j -= 1;
    }
    proof {
        assert forall|k: int| j - i <= k < t.len() implies is_white_space(#[trigger] t[k]) by {
            assert(t[k] == v@[i + k]);
        }
        if j > i {
            assert(t[j - i - 1] == v@[j - 1]);
        }
        lemma_trim_end_at(t, j - i);
        assert(t.take(j - i) =~= v@.subrange(i as int, j as int));
    }
    (i, j)
}

/// The pieces of `v` between occurrences of `sep`.
pub fn split_chars(v: &Vec<char>, sep: char) -> (r: Vec<Vec<char>>)
    ensures
        pieces_view(r@) == split_on(v@, sep),
{
    let mut pieces: Vec<Vec<char>> = Vec::new();
    let mut cur: Vec<char> = Vec::new();
    let n = v.len();
    for k in 0..n
        invariant
            n == v.len(),
            pieces_view(pieces@).push(cur@) == split_on(v@.take(k as int), sep),
    {
        let ghost prev = pieces_view(pieces@);
        assert(v@.take(k + 1).drop_last() =~= v@.take(k as int));
        assert(v@.take(k + 1).last() == v@[k as int]);
        if v[k] == sep {
            let done = cur;
            pieces.push(done);
            cur = Vec::new();
            assert(pieces_view(pieces@) =~= prev.push(done@));
            assert(pieces_view(pieces@).push(cur@) =~= prev.push(done@).push(Seq::<char>::empty()));
        } else {
            let ghost old_cur = cur@;
            cur.push(v[k]);
            assert(pieces_view(pieces@).push(cur@) =~= prev.push(old_cur).update(
                prev.len() as int,
                old_cur.push(v@[k as int]),
            ));
        }
    }
    let ghost prev = pieces_view(pieces@);
    let last = cur;
    pieces.push(last);
    assert(pieces_view(pieces@) =~= prev.push(last@));
    assert(v@.take(n as int) =~= v@);
    pieces
}

/// The lines of `input`, each trimmed of white space, blank lines dropped.
pub fn trimmed_nonblank_lines(input: &str) -> (r: Vec<String>)
    ensures
        strings_view(r@) == trimmed_lines(input@),
{
    let chars = chars_of(input);
    let pieces = split_chars(&chars, '\n');
    let mut out: Vec<String> = Vec::new();
    let n = pieces.len();
    for k in 0..n
        invariant
            n == pieces.len(),
            pieces_view(pieces@) == split_on(input@, '\n'),
            strings_view(out@) == non_blank_trimmed(pieces_view(pieces@).take(k as int)),
    {
        let ghost pv = pieces_view(pieces@);
        assert(pv.take(k + 1).drop_last() =~= pv.take(k as int));
        assert(pv.take(k + 1).last() == pieces@[k as int]@);
        let piece = &pieces[k];
        let (i, j) = trim_bounds(piece, 0, piece.len());
        assert(piece@.subrange(0, piece@.len() as int) =~= piece@);
        if i < j {
            let ghost prev = strings_view(out@);
            let line = string_from_chars(piece, i, j);
            out.push(line);
            assert(strings_view(out@) =~= prev.push(line@));
        }
    }
    assert(pieces_view(pieces@).take(n as int) =~= pieces_view(pieces@));
    out
}

/// The first non-blank line of `text`, trimmed, if there is one.
pub fn first_trimmed_line(text: &str) -> (r: Option<String>)
    ensures
        match r {
            Some(line) => trimmed_lines(text@).len() > 0 && line@ == trimmed_lines(text@)[0],
            None => trimmed_lines(text@).len() == 0,
        },
{
    let mut lines = trimmed_nonblank_lines(text);
    if lines.len() == 0 {
        None
    } else {
        assert(strings_view(lines@)[0] == lines@[0]@);
        Some(lines.swap_remove(0))
    }
}

/// The strings joined with `sep` between consecutive ones.
pub fn join_strings(parts: &Vec<String>, sep: &str) -> (r: String)
    ensures
        r@ == join_text(strings_view(parts@), sep@),
{
    let mut out = String::new();
    let n = parts.len();
    for k in 0..n
        invariant
            n == parts.len(),
            out@ == join_text(strings_view(parts@).take(k as int), sep@),
    {
        let ghost sv = strings_view(parts@);
        assert(sv.take(k + 1).drop_last() =~= sv.take(k as int));
        if k > 0 {
            out.append(sep);
        } else {
            assert(sv.take(1) =~= seq![sv[0]]);
            assert(out@ =~= Seq::<char>::empty());
        }
        out.append(parts[k].as_str());
        if k == 0 {
            assert(out@ =~= sv[0]);
        }
    }
    assert(strings_view(parts@).take(n as int) =~= strings_view(parts@));
    out
}

/// Whether `needle` occurs in `hay` as a contiguous run.
pub fn contains_chars(hay: &Vec<char>, needle: &Vec<char>) -> (r: bool)
    ensures
        r == has_substring(hay@, needle@),
{
    if needle.len() > hay.len() {
        return false;
    }
    let last = hay.len() - needle.len();
    let mut i: usize = 0;
    while i <= last
        invariant
            last == hay.len() - needle.len(),
            needle.len() <= hay.len(),
            i <= last + 1,
            forall|p: int| 0 <= p < i ==> #[trigger] hay@.subrange(p, p + needle.len()) != needle@,
        decreases last + 1 - i,
    {
        let mut k: usize = 0;
        let mut same = true;
        while k < needle.len()
            invariant
                i <= last,
                last == hay.len() - needle.len(),
                k <= needle.len(),
                same == (forall|q: int| 0 <= q < k ==> hay@[i + q] == needle@[q]),
            decreases needle.len() - k,
        {
            if hay[i + k] != needle[k] {
                same = false;
            }
            k += 1;
        }
        if same {
            assert(hay@.subrange(i as int, i + needle.len()) =~= needle@);
            return true;
        }
        assert(hay@.subrange(i as int, i + needle.len()) != needle@) by {
            let q = choose|q: int| 0 <= q < needle.len() && hay@[i + q] != needle@[q];
            assert(hay@.subrange(i as int, i + needle.len())[q] == hay@[i + q]);
        }
        i += 1;
    }
    false
}

} // verus!
