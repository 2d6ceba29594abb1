//! Text rules on recognised screen text: case folding, substring search,
//! splitting a text into lines and joining lines back, and reading an
//! unsigned decimal number.
use vstd::prelude::*;

verus! {

/// What `str::to_lowercase` makes of a text (full Unicode lowercase mapping).
pub uninterp spec fn lowercase_of(s: Seq<char>) -> Seq<char>;

/// Every character is ASCII.
pub open spec fn is_ascii_text(s: Seq<char>) -> bool {
    forall|i: int| 0 <= i < s.len() ==> (#[trigger] s[i] as u32) < 128
}

/// The ASCII lowercase of a character: `'A'..='Z'` become `'a'..='z'`,
/// every other character stays.
pub open spec fn ascii_lower(c: char) -> char {
    if 'A' <= c && c <= 'Z' {
        ((c as u32) + 32) as char
    } else {
        c
    }
}

/// The ASCII lowercase of a text, character by character.
pub open spec fn ascii_lowercase(s: Seq<char>) -> Seq<char> {
    Seq::new(s.len(), |i: int| ascii_lower(s[i]))
}

/// `a` and `b` differ at most in the case of ASCII letters.
pub open spec fn ascii_case_variants(a: Seq<char>, b: Seq<char>) -> bool {
    &&& a.len() == b.len()
    &&& forall|i: int| 0 <= i < a.len() ==> ascii_lower(#[trigger] a[i]) == ascii_lower(b[i])
}

/// Two lists of lines that differ, line by line, at most in the case of ASCII letters.
pub open spec fn lines_case_variants(a: Seq<Seq<char>>, b: Seq<Seq<char>>) -> bool {
    &&& a.len() == b.len()
    &&& forall|i: int| 0 <= i < a.len() ==> ascii_case_variants(#[trigger] a[i], b[i])
}

/// Calls `str::to_lowercase`. Claims that the result is the named lowercase
/// mapping of the argument, and, as the Unicode lowercase mapping of ASCII
/// letters is the ASCII one (and ASCII letters of either case are cased
/// letters, for the context of final sigma), that an ASCII text maps
/// character by character with `'A'..='Z'` to `'a'..='z'` and everything
/// else kept, and that every text that differs from the argument at most in
/// the case of ASCII letters has the same lowercase. What the mapping does to
/// other characters is left to the standard library.
#[verifier::external_body]
pub(crate) fn to_lowercase(s: &str) -> (lower: String)
    ensures
        lower@ == lowercase_of(s@),
        is_ascii_text(s@) ==> lower@ == ascii_lowercase(s@),
        forall|t: Seq<char>| #[trigger] ascii_case_variants(t, s@) ==> lowercase_of(t) == lower@,
{
    s.to_lowercase()
}

/// The characters of a text, in order.
pub fn chars_of(s: &str) -> (cs: Vec<char>)
    ensures
        cs@ == s@,
{
    let n = s.unicode_len();
    let mut cs: Vec<char> = Vec::new();
    let mut i: usize = 0;
    while i < n
        invariant
            n == s@.len(),
            i <= n,
            cs@ == s@.take(i as int),
        decreases n - i,
    {
        let c = s.get_char(i);
        cs.push(c);
        i = i + 1;
        assert(cs@ =~= s@.take(i as int));
    }
    assert(s@.take(n as int) =~= s@);
    cs
}

/// `needle` occurs in `hay` at position `i`.
pub open spec fn occurs_at(hay: Seq<char>, needle: Seq<char>, i: int) -> bool {
    0 <= i && i + needle.len() <= hay.len() && hay.subrange(i, i + needle.len()) == needle
}

/// `needle` occurs somewhere in `hay` (the empty text occurs everywhere).
pub open spec fn has_substring(hay: Seq<char>, needle: Seq<char>) -> bool {
    exists|i: int| #[trigger] occurs_at(hay, needle, i)
}

/// Whether `needle` occurs in `hay`, as `str::contains` with a `&str` pattern.
pub fn contains_text(hay: &str, needle: &str) -> (found: bool)
    ensures
        found == has_substring(hay@, needle@),
{
    let h = chars_of(hay);
    let n = chars_of(needle);
    let hl = h.len();
    let nl = n.len();
    if nl > hl {
        assert forall|i: int| !occurs_at(hay@, needle@, i) by {}
        return false;
    }
    let last = hl - nl;
    let mut i: usize = 0;
    while i <= last
        invariant
            h@ == hay@,
            n@ == needle@,
            hl == h.len(),
            nl == n.len(),
            nl <= hl,
            last == hl - nl,
            i <= last + 1,
            forall|k: int| 0 <= k < i ==> !#[trigger] occurs_at(hay@, needle@, k),
        decreases last + 1 - i,
    {
        let mut j: usize = 0;
        while j < nl && h[i + j] == n[j]
            invariant
                h@ == hay@,
                n@ == needle@,
                hl == h.len(),
                nl == n.len(),
                i + nl <= hl,
                j <= nl,
                forall|t: int| 0 <= t < j ==> h@[i + t] == n@[t],
            decreases nl - j,
        {
            j = j + 1;
        }
        if j == nl {
            assert(hay@.subrange(i as int, i + nl) =~= needle@);
            assert(occurs_at(hay@, needle@, i as int));
            return true;
        }
        assert(hay@.subrange(i as int, i + nl)[j as int] == hay@[i + j]);
        assert(!occurs_at(hay@, needle@, i as int));
        i = i + 1;
    }
    assert forall|k: int| !occurs_at(hay@, needle@, k) by {
        if 0 <= k <= last {
        }
    }
    false
}

/// The pieces of `s` between occurrences of `sep`, as `str::split` with a
/// `char` pattern: always at least one piece, an empty one for an empty text.
pub open spec fn split_on(s: Seq<char>, sep: char) -> Seq<Seq<char>>
    decreases s.len(),
{
    if s.len() == 0 {
        seq![Seq::<char>::empty()]
    } else {
        let rest = split_on(s.drop_last(), sep);
        if s.last() == sep {
            rest.push(Seq::<char>::empty())
        } else {
            rest.update(rest.len() - 1, rest.last().push(s.last()))
        }
    }
}

/// The character views of a list of strings.
pub open spec fn string_views(v: Seq<String>) -> Seq<Seq<char>> {
    v.map_values(|l: String| l@)
}

/// Each line followed by a line feed, one after the other.
pub open spec fn joined_lines(lines: Seq<Seq<char>>) -> Seq<char>
    decreases lines.len(),
{
    if lines.len() == 0 {
        Seq::<char>::empty()
    } else {
        joined_lines(lines.drop_last()) + lines.last() + seq!['\n']
    }
}

/// No line holds a line feed.
pub open spec fn no_line_feeds(lines: Seq<Seq<char>>) -> bool {
    forall|i: int, j: int|
        0 <= i < lines.len() && 0 <= j < lines[i].len() ==> #[trigger] lines[i][j] != '\n'
}

pub proof fn lemma_split_nonempty(s: Seq<char>, sep: char)
    ensures
        split_on(s, sep).len() >= 1,
    decreases s.len(),
{
    if s.len() > 0 {
        lemma_split_nonempty(s.drop_last(), sep);
    }
}

/// Splits `text` at every line feed, as `text.split('\n')`.
pub fn split_lines(text: &str) -> (lines: Vec<String>)
    ensures
        string_views(lines@) == split_on(text@, '\n'),
{
    let cs = chars_of(text);
    let n = cs.len();
    let mut lines: Vec<String> = Vec::new();
    let mut start: usize = 0;
    let mut i: usize = 0;
    assert(text@.take(0) =~= Seq::<char>::empty());
    assert(string_views(lines@).push(text@.subrange(0, 0)) =~= seq![Seq::<char>::empty()]);
    while i < n
        invariant
            cs@ == text@,
            n == cs.len(),
            start <= i <= n,
            split_on(text@.take(i as int), '\n') == string_views(lines@).push(
                text@.subrange(start as int, i as int),
            ),
        decreases n - i,
    {
        let ghost prev = text@.take(i as int);
        assert(text@.take(i + 1).drop_last() =~= prev);
        assert(text@.take(i + 1).last() == text@[i as int]);
        if cs[i] == '\n' {
            let ghost old_views = string_views(lines@);
            let piece = text.substring_char(start, i).to_owned();
            lines.push(piece);
            assert(string_views(lines@) =~= old_views.push(piece@));
            start = i + 1;
            assert(text@.subrange(start as int, (i + 1) as int) =~= Seq::<char>::empty());
        } else {
            assert(text@.subrange(start as int, (i + 1) as int) =~= text@.subrange(
                start as int,
                i as int,
            ).push(text@[i as int]));
        }
        i = i + 1;
        assert(split_on(text@.take(i as int), '\n') =~= string_views(lines@).push(
            text@.subrange(start as int, i as int),
        ));
    }
    let piece = text.substring_char(start, n).to_owned();
    lines.push(piece);
    assert(text@.take(n as int) =~= text@);
    assert(string_views(lines@) =~= split_on(text@, '\n'));
    lines
}

/// Writes each line followed by a line feed, one after the other.
pub fn join_lines(lines: &Vec<String>) -> (text: String)
    ensures
        text@ == joined_lines(string_views(lines@)),
{
    let mut text = String::new();
    let n = lines.len();
    let mut i: usize = 0;
    proof {
        reveal_strlit("\n");
    }
    assert(string_views(lines@).take(0) =~= Seq::<Seq<char>>::empty());
    while i < n
        invariant
            n == lines.len(),
            i <= n,
            "\n"@ == seq!['\n'],
            text@ == joined_lines(string_views(lines@).take(i as int)),
        decreases n - i,
    {
        text.append(lines[i].as_str());
        text.append("\n");
        assert(string_views(lines@).take(i + 1).drop_last() =~= string_views(lines@).take(i as int));
        i = i + 1;
    }
    assert(string_views(lines@).take(n as int) =~= string_views(lines@));
    text
}

/// Splitting `t + w` where `w` holds no separator extends the last piece of `t` by `w`.
proof fn lemma_split_append_plain(t: Seq<char>, w: Seq<char>, sep: char)
    requires
        forall|j: int| 0 <= j < w.len() ==> w[j] != sep,
    ensures
        split_on(t + w, sep) == split_on(t, sep).update(
            split_on(t, sep).len() - 1,
            split_on(t, sep).last() + w,
        ),
    decreases w.len(),
{
    lemma_split_nonempty(t, sep);
    if w.len() == 0 {
        assert(t + w =~= t);
        assert(split_on(t, sep).last() + w =~= split_on(t, sep).last());
        assert(split_on(t, sep).update(split_on(t, sep).len() - 1, split_on(t, sep).last() + w)
            =~= split_on(t, sep));
    } else {
        let w0 = w.drop_last();
        lemma_split_append_plain(t, w0, sep);
        assert((t + w).drop_last() =~= t + w0);
        assert((t + w).last() == w.last());
        assert(split_on(t, sep).last() + w =~= (split_on(t, sep).last() + w0).push(w.last()));
        let r = split_on(t, sep);
        let r0 = r.update(r.len() - 1, r.last() + w0);
        assert(r0.last() == r.last() + w0);
        assert(r0.update(r0.len() - 1, r0.last().push(w.last())) =~= r.update(
            r.len() - 1,
            r.last() + w,
        ));
    }
}

/// Lines without line feeds, joined with a line feed after each and split at
/// line feeds again, come back in order, followed by one empty piece.
pub proof fn lemma_split_joined_lines(lines: Seq<Seq<char>>)
    requires
        no_line_feeds(lines),
    ensures
        split_on(joined_lines(lines), '\n') == lines.push(Seq::<char>::empty()),
    decreases lines.len(),
{
    if lines.len() == 0 {
        assert(split_on(Seq::<char>::empty(), '\n') =~= lines.push(Seq::<char>::empty()));
    } else {
        let init = lines.drop_last();
        let l = lines.last();
        assert(no_line_feeds(init)) by {
            assert forall|i: int, j: int| 0 <= i < init.len() && 0 <= j < init[i].len() implies
                #[trigger] init[i][j] != '\n' by {
                assert(init[i] == lines[i]);
            }
        }
        lemma_split_joined_lines(init);
        let t = joined_lines(init);
        assert forall|j: int| 0 <= j < l.len() implies l[j] != '\n' by {
            assert(lines[lines.len() - 1] == l);
            assert(lines[lines.len() - 1][j] != '\n');
        }
        lemma_split_append_plain(t, l, '\n');
        let r = split_on(t, '\n');
        assert(r.update(r.len() - 1, r.last() + l) =~= lines);
        let whole = joined_lines(lines);
        assert(whole == t + l + seq!['\n']);
        assert(whole.drop_last() =~= t + l);
        assert(whole.last() == '\n');
        assert(split_on(whole, '\n') =~= lines.push(Seq::<char>::empty()));
    }
}

/// An ASCII decimal digit.
pub open spec fn is_digit(c: char) -> bool {
    '0' <= c && c <= '9'
}

/// Every character is an ASCII decimal digit.
pub open spec fn all_digits(s: Seq<char>) -> bool {
    forall|i: int| 0 <= i < s.len() ==> #[trigger] is_digit(s[i])
}

/// The number that a string of decimal digits writes.
pub open spec fn digits_value(s: Seq<char>) -> nat
    decreases s.len(),
{
    if s.len() == 0 {
        0
    } else {
        digits_value(s.drop_last()) * 10 + ((s.last() as int) - ('0' as int)) as nat
    }
}

/// The digits of an unsigned number's text: without its one leading `+`, if any.
pub open spec fn unsigned_digits(s: Seq<char>) -> Seq<char> {
    if s.len() > 0 && s[0] == '+' {
        s.skip(1)
    } else {
        s
    }
}

/// What `str::parse::<u32>` gives: an optional `+`, then at least one ASCII
/// digit and nothing else, for a value that fits in `u32`.
pub open spec fn parsed_u32(s: Seq<char>) -> Option<u32> {
    let d = unsigned_digits(s);
    if d.len() > 0 && all_digits(d) && digits_value(d) <= u32::MAX {
        Some(digits_value(d) as u32)
    } else {
        None
    }
}

/// A string of digits is worth at least any of its prefixes.
proof fn lemma_digits_value_prefix(s: Seq<char>, k: int)
    requires
        all_digits(s),
        0 <= k <= s.len(),
    ensures
        digits_value(s.take(k)) <= digits_value(s),
    decreases s.len(),
{
    if k == s.len() {
        assert(s.take(k) =~= s);
    } else {
        let s0 = s.drop_last();
        assert(all_digits(s0)) by {
            assert forall|i: int| 0 <= i < s0.len() implies #[trigger] is_digit(s0[i]) by {
                assert(s0[i] == s[i]);
            }
        }
        lemma_digits_value_prefix(s0, k);
        assert(s0.take(k) =~= s.take(k));
        assert(is_digit(s[s.len() - 1]));
    }
}

/// Reads an unsigned decimal number, as `str::parse::<u32>`.
pub fn parse_u32(s: &str) -> (value: Option<u32>)
    ensures
        value == parsed_u32(s@),
{
    let cs = chars_of(s);
    let n = cs.len();
    let mut start: usize = 0;
    if n > 0 && cs[0] == '+' {
        start = 1;
    }
    let ghost d = unsigned_digits(s@);
    assert(d =~= s@.skip(start as int));
    if start >= n {
        return None;
    }
    let mut acc: u64 = 0;
    let mut i: usize = start;
    assert(d.take(0) =~= Seq::<char>::empty());
    while i < n
        invariant
            cs@ == s@,
            n == cs.len(),
            start <= i <= n,
            start < n,
            d == s@.skip(start as int),
            d == unsigned_digits(s@),
            all_digits(d.take(i - start)),
            acc == digits_value(d.take(i - start)),
            acc <= u32::MAX,
        decreases n - i,
    {
        let c = cs[i];
        assert(d[i - start] == c);
        if !(c >= '0' && c <= '9') {
            assert(!is_digit(d[i - start]));
            return None;
        }
        let v: u64 = acc * 10 + ((c as u64) - ('0' as u64));
        let ghost pre = d.take(i - start + 1);
        assert(pre.drop_last() =~= d.take(i - start));
        assert(pre.last() == c);
        assert(all_digits(pre)) by {
            assert forall|t: int| 0 <= t < pre.len() implies #[trigger] is_digit(pre[t]) by {
                if t < pre.len() - 1 {
                    assert(pre[t] == d.take(i - start)[t]);
                }
            }
        }
        assert(v == digits_value(pre));
        if v > 0xffff_ffffu64 {
            proof {
                if all_digits(d) {
                    lemma_digits_value_prefix(d, (i - start + 1) as int);
                }
            }
            return None;
        }
        acc = v;
        i = i + 1;
    }
    assert(d.take(i - start) =~= d);
    Some(acc as u32)
}

/// A text holds every text put inside it, the empty text included, and no
/// text longer than itself.
pub proof fn lemma_substring_laws(a: Seq<char>, needle: Seq<char>, b: Seq<char>, hay: Seq<char>)
    ensures
        has_substring(a + needle + b, needle),
        has_substring(hay, Seq::<char>::empty()),
        needle.len() > hay.len() ==> !has_substring(hay, needle),
{
    let whole = a + needle + b;
    assert(whole.subrange(a.len() as int, (a.len() + needle.len()) as int) =~= needle);
    assert(occurs_at(whole, needle, a.len() as int));
    assert(hay.subrange(0, 0) =~= Seq::<char>::empty());
    assert(occurs_at(hay, Seq::<char>::empty(), 0));
}

/// Reading an unsigned number: a single digit reads as its value; one more
/// digit multiplies by ten and adds it, while the value fits; one leading `+`
/// changes nothing; the empty text, a lone `+` and any other character read
/// as nothing.
pub proof fn lemma_parse_u32_laws(s: Seq<char>, c: char)
    ensures
        '0' <= c <= '9' ==> parsed_u32(seq![c]) == Some(((c as u32) - ('0' as u32)) as u32),
        parsed_u32(Seq::<char>::empty()) is None,
        parsed_u32(seq!['+']) is None,
        s.len() > 0 && s[0] != '+' ==> parsed_u32(seq!['+'] + s) == parsed_u32(s),
        !('0' <= c <= '9') && c != '+' ==> parsed_u32(s.push(c)) is None && parsed_u32(seq![c] + s) is None,
        ('0' <= c <= '9') && parsed_u32(s) is Some && s[0] != '+' && parsed_u32(s)->0 * 10 + ((c as u32)
            - ('0' as u32)) <= 0xffff_ffff ==> parsed_u32(s.push(c)) == Some(
            (parsed_u32(s)->0 * 10 + ((c as u32) - ('0' as u32))) as u32,
        ),
{
    let one = seq![c];
    assert(one.drop_last() =~= Seq::<char>::empty());
    assert((seq!['+'] + s).skip(1) =~= s);
    assert(seq!['+'].skip(1) =~= Seq::<char>::empty());
    if !('0' <= c <= '9') && c != '+' {
        let t = s.push(c);
        if s.len() > 0 && s[0] == '+' {
            assert(unsigned_digits(t)[t.len() - 2] == c);
            assert(!is_digit(unsigned_digits(t)[t.len() - 2]));
        } else {
            assert(unsigned_digits(t) == t);
            assert(!is_digit(t[t.len() - 1]));
        }
        let u = seq![c] + s;
        assert(unsigned_digits(u) == u);
        assert(!is_digit(u[0]));
    }
    if ('0' <= c <= '9') && parsed_u32(s) is Some && s[0] != '+' {
        let t = s.push(c);
        assert(unsigned_digits(t) == t);
        assert(unsigned_digits(s) == s);
        assert(t.drop_last() =~= s);
        assert(all_digits(t)) by {
            assert forall|i: int| 0 <= i < t.len() implies #[trigger] is_digit(t[i]) by {
                if i < s.len() {
                    assert(t[i] == s[i]);
                }
            }
        }
    }
}

/// Pieces of a split hold no separator.
pub proof fn lemma_split_pieces_plain(s: Seq<char>, sep: char)
    ensures
        forall|i: int, j: int|
            0 <= i < split_on(s, sep).len() && 0 <= j < split_on(s, sep)[i].len()
                ==> #[trigger] split_on(s, sep)[i][j] != sep,
    decreases s.len(),
{
    if s.len() > 0 {
        lemma_split_pieces_plain(s.drop_last(), sep);
        lemma_split_nonempty(s.drop_last(), sep);
        let rest = split_on(s.drop_last(), sep);
        if s.last() != sep {
            let last = rest.last().push(s.last());
            assert forall|i: int, j: int|
                0 <= i < split_on(s, sep).len() && 0 <= j < split_on(s, sep)[i].len()
                    implies #[trigger] split_on(s, sep)[i][j] != sep by {
                if i == rest.len() - 1 {
                    if j < rest.last().len() {
                        assert(rest[rest.len() - 1][j] != sep);
                    }
                } else {
                    assert(split_on(s, sep)[i] == rest[i]);
                }
            }
        } else {
            assert forall|i: int, j: int|
                0 <= i < split_on(s, sep).len() && 0 <= j < split_on(s, sep)[i].len()
                    implies #[trigger] split_on(s, sep)[i][j] != sep by {
                assert(split_on(s, sep)[i] == rest.push(Seq::<char>::empty())[i]);
            }
        }
    }
}

} // verus!
