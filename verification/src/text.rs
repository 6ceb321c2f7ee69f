//! Operations on text, seen as a sequence of characters: white space, trimming,
//! splitting, joining and line breaks.

use vstd::prelude::*;

verus! {

/// `String::push` appends one character to the end of the string.
pub assume_specification[ String::push ](s: &mut String, c: char)
    ensures
        final(s)@ == old(s)@.push(c),
;

/// Whether `c` has the Unicode property White_Space.
pub open spec fn is_space(c: char) -> bool {
    let n = c as u32;
    ||| 0x09 <= n <= 0x0D
    ||| n == 0x20
    ||| n == 0x85
    ||| n == 0xA0
    ||| n == 0x1680
    ||| 0x2000 <= n <= 0x200A
    ||| n == 0x2028
    ||| n == 0x2029
    ||| n == 0x202F
    ||| n == 0x205F
    ||| n == 0x3000
}

/// Whether `s` holds nothing but white space; the empty text is blank.
pub open spec fn is_blank(s: Seq<char>) -> bool {
    forall|i: int| 0 <= i < s.len() ==> is_space(#[trigger] s[i])
}

/// `s` without the white space it starts with.
pub open spec fn trimmed_start(s: Seq<char>) -> Seq<char>
    decreases s.len(),
{
    if s.len() > 0 && is_space(s[0]) {
        trimmed_start(s.drop_first())
    } else {
        s
    }
}

/// `s` without the white space it ends with.
pub open spec fn trimmed_end(s: Seq<char>) -> Seq<char>
    decreases s.len(),
{
    if s.len() > 0 && is_space(s.last()) {
        trimmed_end(s.drop_last())
    } else {
        s
    }
}

/// `s` without the white space at either end.
pub open spec fn trimmed(s: Seq<char>) -> Seq<char> {
    trimmed_end(trimmed_start(s))
}

/// The pieces into which the characters of `separators` cut `s`: every
/// occurrence of one of them ends a piece and begins the next, so that `n`
/// occurrences leave `n + 1` pieces, some of which may be empty.
pub open spec fn pieces(s: Seq<char>, separators: Seq<char>) -> Seq<Seq<char>>
    decreases s.len(),
{
    if s.len() == 0 {
        seq![Seq::empty()]
    } else {
        let before = pieces(s.drop_last(), separators);
        if separators.contains(s.last()) {
            before.push(Seq::empty())
        } else {
            before.drop_last().push(before.last().push(s.last()))
        }
    }
}

/// Whether `pattern` stands in `s` at position `at`.
pub open spec fn occurs_at(s: Seq<char>, pattern: Seq<char>, at: int) -> bool {
    &&& 0 <= at
    &&& at + pattern.len() <= s.len()
    &&& s.subrange(at, at + pattern.len()) == pattern
}

/// The first position at or after `from` at which `pattern` stands in `s`,
/// or -1 where there is none. An empty pattern stands nowhere.
pub open spec fn first_occurrence(s: Seq<char>, pattern: Seq<char>, from: int) -> int
    decreases s.len() - from,
{
    if pattern.len() == 0 || from < 0 || from + pattern.len() > s.len() {
        -1
    } else if occurs_at(s, pattern, from) {
        from
    } else {
        first_occurrence(s, pattern, from + 1)
    }
}

/// The pieces into which the occurrences of `pattern` cut `s`. The
/// occurrences are taken from left to right and do not overlap: after one has
/// been found, the search goes on behind it.
pub open spec fn pieces_between(s: Seq<char>, pattern: Seq<char>) -> Seq<Seq<char>>
    decreases s.len(),
{
    let at = first_occurrence(s, pattern, 0);
    if pattern.len() > 0 && 0 <= at && at + pattern.len() <= s.len() {
        seq![s.take(at)] + pieces_between(s.skip(at + pattern.len()), pattern)
    } else {
        seq![s]
    }
}

/// `s` without a carriage return at its end.
pub open spec fn without_final_cr(s: Seq<char>) -> Seq<char> {
    if s.len() > 0 && s.last() == '\r' {
        s.drop_last()
    } else {
        s
    }
}

/// The lines of `s`. A line feed ends a line, and a carriage return directly
/// before that line feed belongs to the line ending. What follows the last
/// line feed is a line only if it is not empty, and it keeps a carriage return
/// at its end.
pub open spec fn lines_of(s: Seq<char>) -> Seq<Seq<char>> {
    let cut = pieces(s, seq!['\n']);
    let ended = cut.drop_last().map_values(|line: Seq<char>| without_final_cr(line));
    if cut.last().len() == 0 {
        ended
    } else {
        ended.push(cut.last())
    }
}

/// The texts of `parts` in order, with `separator` between each two.
pub open spec fn joined(parts: Seq<Seq<char>>, separator: Seq<char>) -> Seq<char>
    decreases parts.len(),
{
    if parts.len() == 0 {
        Seq::empty()
    } else if parts.len() == 1 {
        parts[0]
    } else {
        joined(parts.drop_last(), separator) + separator + parts.last()
    }
}

/// `s` with every carriage return that stands directly before a line feed
/// left out.
pub open spec fn with_line_feeds(s: Seq<char>) -> Seq<char>
    decreases s.len(),
{
    if s.len() == 0 {
        s
    } else if s.len() >= 2 && s[0] == '\r' && s[1] == '\n' {
        seq!['\n'] + with_line_feeds(s.skip(2))
    } else {
        seq![s[0]] + with_line_feeds(s.skip(1))
    }
}

/// Whether no character of `s` is one of `separators`.
pub open spec fn is_free_of(s: Seq<char>, separators: Seq<char>) -> bool {
    forall|i: int| 0 <= i < s.len() ==> !separators.contains(#[trigger] s[i])
}

/// `s` with a carriage return put before every line feed.
pub open spec fn with_carriage_returns(s: Seq<char>) -> Seq<char>
    decreases s.len(),
{
    if s.len() == 0 {
        s
    } else if s[0] == '\n' {
        seq!['\r', '\n'] + with_carriage_returns(s.skip(1))
    } else {
        seq![s[0]] + with_carriage_returns(s.skip(1))
    }
}

/// Whether no carriage return of `s` stands directly before a line feed.
pub open spec fn has_line_feeds_only(s: Seq<char>) -> bool {
    forall|i: int| 0 <= i < s.len() - 1 ==> !(#[trigger] s[i] == '\r' && s[i + 1] == '\n')
}

/// Leading white space: `trimmed_start` drops exactly the first `n`
/// characters when these are white space and the next one is not.
pub proof fn lemma_trimmed_start(s: Seq<char>, n: int)
    requires
        0 <= n <= s.len(),
        forall|i: int| 0 <= i < n ==> is_space(#[trigger] s[i]),
        n == s.len() || !is_space(s[n]),
    ensures
        trimmed_start(s) == s.skip(n),
    decreases n,
{
    if n > 0 {
        let rest = s.drop_first();
        assert forall|i: int| 0 <= i < n - 1 implies is_space(#[trigger] rest[i]) by {}
        lemma_trimmed_start(rest, n - 1);
    }
}

/// Trailing white space: `trimmed_end` keeps exactly the first `n` characters
/// when all after them are white space and the one before is not.
pub proof fn lemma_trimmed_end(s: Seq<char>, n: int)
    requires
        0 <= n <= s.len(),
        forall|i: int| n <= i < s.len() ==> is_space(#[trigger] s[i]),
        n == 0 || !is_space(s[n - 1]),
    ensures
        trimmed_end(s) == s.take(n),
    decreases s.len() - n,
{
    if n < s.len() {
        lemma_trimmed_end(s.drop_last(), n);
    }
}

/// An occurrence in what is left of `s` after its first `start` characters is
/// an occurrence in `s`, `start` places further on.
pub proof fn lemma_occurs_at_skip(s: Seq<char>, pattern: Seq<char>, start: int, at: int)
    requires
        0 <= start <= s.len(),
        0 <= at,
    ensures
        occurs_at(s.skip(start), pattern, at) == occurs_at(s, pattern, start + at),
{
    if at + pattern.len() <= s.len() - start {
        assert(s.skip(start).subrange(at, at + pattern.len()) =~= s.subrange(
            start + at,
            start + at + pattern.len(),
        ));
    }
}

/// Where `pattern` stands nowhere in `s` from `start + k` up to `pos`, the
/// search in what follows the first `start` characters, begun at `k`, finds
/// `pos` if the pattern stands there, and nothing if it no longer fits.
pub proof fn lemma_first_occurrence_skip(
    s: Seq<char>,
    pattern: Seq<char>,
    start: int,
    k: int,
    pos: int,
)
    requires
        0 <= start,
        0 <= k,
        start + k <= pos <= s.len(),
        pattern.len() > 0,
        forall|j: int| start + k <= j < pos ==> !occurs_at(s, pattern, j),
    ensures
        occurs_at(s, pattern, pos) ==> first_occurrence(s.skip(start), pattern, k) == pos - start,
        pos + pattern.len() > s.len() ==> first_occurrence(s.skip(start), pattern, k) == -1,
    decreases pos - start - k,
{
    lemma_occurs_at_skip(s, pattern, start, k);
    if start + k < pos {
        lemma_first_occurrence_skip(s, pattern, start, k + 1, pos);
    }
}

/// A text without separators is one piece.
pub proof fn lemma_pieces_of_one(s: Seq<char>, separators: Seq<char>)
    requires
        is_free_of(s, separators),
    ensures
        pieces(s, separators) == seq![s],
    decreases s.len(),
{
    if s.len() == 0 {
        assert(s =~= Seq::empty());
    } else {
        let front = s.drop_last();
        assert forall|i: int| 0 <= i < front.len() implies !separators.contains(
            #[trigger] front[i],
        ) by {}
        lemma_pieces_of_one(front, separators);
        assert(front.push(s.last()) =~= s);
    }
}

/// A separator and a text without separators, put behind `s`, add that text
/// as one more piece.
pub proof fn lemma_pieces_of_more(
    s: Seq<char>,
    separator: char,
    piece: Seq<char>,
    separators: Seq<char>,
)
    requires
        separators.contains(separator),
        is_free_of(piece, separators),
    ensures
        pieces(s.push(separator) + piece, separators) == pieces(s, separators).push(piece),
    decreases piece.len(),
{
    let whole = s.push(separator) + piece;
    if piece.len() == 0 {
        assert(whole.drop_last() =~= s);
        assert(piece =~= Seq::empty());
    } else {
        let front = piece.drop_last();
        assert forall|i: int| 0 <= i < front.len() implies !separators.contains(
            #[trigger] front[i],
        ) by {}
        lemma_pieces_of_more(s, separator, front, separators);
        assert(whole.drop_last() =~= s.push(separator) + front);
        assert(front.push(whole.last()) =~= piece);
    }
}

/// What `trimmed` leaves of `s` is a stretch of `s`; the result gives its
/// bounds.
pub proof fn lemma_trimmed_is_stretch(s: Seq<char>) -> (bounds: (int, int))
    ensures
        0 <= bounds.0 <= bounds.1 <= s.len(),
        trimmed(s) == s.subrange(bounds.0, bounds.1),
{
    let from = lemma_trimmed_start_is_skip(s);
    let kept = lemma_trimmed_end_is_take(s.skip(from));
    (from, from + kept)
}

/// `trimmed_start` drops some first characters; the result says how many.
pub proof fn lemma_trimmed_start_is_skip(s: Seq<char>) -> (n: int)
    ensures
        0 <= n <= s.len(),
        trimmed_start(s) == s.skip(n),
    decreases s.len(),
{
    if s.len() > 0 && is_space(s[0]) {
        lemma_trimmed_start_is_skip(s.drop_first()) + 1
    } else {
        0
    }
}

/// `trimmed_end` keeps some first characters; the result says how many.
pub proof fn lemma_trimmed_end_is_take(s: Seq<char>) -> (n: int)
    ensures
        0 <= n <= s.len(),
        trimmed_end(s) == s.take(n),
    decreases s.len(),
{
    if s.len() > 0 && is_space(s.last()) {
        lemma_trimmed_end_is_take(s.drop_last())
    } else {
        s.len() as int
    }
}

/// A text in which `pattern` stands nowhere is one piece, also once it has
/// been trimmed.
pub proof fn lemma_pieces_between_of_one(s: Seq<char>, pattern: Seq<char>)
    requires
        forall|i: int| !occurs_at(s, pattern, i),
    ensures
        pieces_between(s, pattern) == seq![s],
        pieces_between(trimmed(s), pattern) == seq![trimmed(s)],
{
    let (from, to) = lemma_trimmed_is_stretch(s);
    let t = trimmed(s);
    assert forall|i: int| !occurs_at(t, pattern, i) by {
        if 0 <= i && i + pattern.len() <= t.len() {
            assert(t.subrange(i, i + pattern.len()) =~= s.subrange(
                from + i,
                from + i + pattern.len(),
            ));
            assert(!occurs_at(s, pattern, from + i));
        }
    }
    lemma_search_finds_nothing(s, pattern);
    lemma_search_finds_nothing(t, pattern);
}

/// Where `pattern` stands nowhere in `s`, the search from the start finds
/// nothing.
pub proof fn lemma_search_finds_nothing(s: Seq<char>, pattern: Seq<char>)
    requires
        forall|i: int| !occurs_at(s, pattern, i),
    ensures
        first_occurrence(s, pattern, 0) == -1,
{
    if pattern.len() > 0 {
        let pos = if pattern.len() <= s.len() {
            s.len() - pattern.len() + 1
        } else {
            0
        };
        lemma_first_occurrence_skip(s, pattern, 0, 0, pos);
        assert(s.skip(0) =~= s);
    }
}

/// A text that neither begins nor ends with white space is trimmed already.
pub proof fn lemma_trimmed_already(s: Seq<char>)
    requires
        s.len() > 0,
        !is_space(s[0]),
        !is_space(s.last()),
    ensures
        trimmed(s) == s,
{
    lemma_trimmed_start(s, 0);
    lemma_trimmed_end(s, s.len() as int);
}

/// What `with_carriage_returns` puts in, `with_line_feeds` takes out again.
pub proof fn lemma_carriage_returns_are_taken_out(s: Seq<char>)
    ensures
        with_line_feeds(with_carriage_returns(s)) == s,
    decreases s.len(),
{
    if s.len() > 0 {
        let rest = s.skip(1);
        let tail = with_carriage_returns(rest);
        lemma_carriage_returns_are_taken_out(rest);
        if s[0] == '\n' {
            assert((seq!['\r', '\n'] + tail).skip(2) =~= tail);
        } else {
            assert((seq![s[0]] + tail).skip(1) =~= tail);
        }
    }
}

/// A text in which no carriage return stands before a line feed is left as
/// it is.
pub proof fn lemma_line_feeds_only(s: Seq<char>)
    requires
        has_line_feeds_only(s),
    ensures
        with_line_feeds(s) == s,
    decreases s.len(),
{
    if s.len() > 0 {
        let rest = s.skip(1);
        assert forall|i: int| 0 <= i < rest.len() - 1 implies !(#[trigger] rest[i] == '\r' && rest[i
            + 1] == '\n') by {}
        lemma_line_feeds_only(rest);
    }
}

/// The characters of `s`, in order.
pub fn to_chars(s: &str) -> (chars: Vec<char>)
    ensures
        chars@ == s@,
{
    let mut chars: Vec<char> = Vec::new();
    for c in it: s.chars()
        invariant
            chars@ == it.seq().take(it.index() as int),
    {
        chars.push(c);
    }
    chars
}

/// The text made of the characters of `chars` from `start` up to `end`.
pub fn string_from(chars: &Vec<char>, start: usize, end: usize) -> (s: String)
    requires
        start <= end <= chars.len(),
    ensures
        s@ == chars@.subrange(start as int, end as int),
{
    let mut s = String::new();
    let mut i: usize = start;
    while i < end
        invariant
            start <= i <= end <= chars.len(),
            s@ == chars@.subrange(start as int, i as int),
        decreases end - i,
    {
        s.push(chars[i]);
        i += 1;
    }
    s
}

/// Tells whether `c` is white space.
pub fn char_is_space(c: char) -> (b: bool)
    ensures
        b == is_space(c),
{
    let n: u32 = c as u32;
    (0x09 <= n && n <= 0x0D) || n == 0x20 || n == 0x85 || n == 0xA0 || n == 0x1680 || (0x2000 <= n
        && n <= 0x200A) || n == 0x2028 || n == 0x2029 || n == 0x202F || n == 0x205F || n == 0x3000
}

/// Tells whether `input` is empty or all white space.
pub fn is_blank_text(input: &str) -> (b: bool)
    ensures
        b == is_blank(input@),
{
    for c in it: input.chars()
        invariant
            it.seq() == input@,
            forall|i: int| 0 <= i < it.index() ==> is_space(#[trigger] input@[i]),
    {
        if !char_is_space(c) {
            return false;
        }
    }
    true
}

/// Removes the white space at both ends of `input`.
pub fn trim(input: &str) -> (out: String)
    ensures
        out@ == trimmed(input@),
{
    let chars = to_chars(input);
    let mut start: usize = 0;
    while start < chars.len() && char_is_space(chars[start])
        invariant
            start <= chars.len(),
            forall|i: int| 0 <= i < start ==> is_space(#[trigger] chars@[i]),
        decreases chars.len() - start,
    {
        start += 1;
    }
    let mut end: usize = chars.len();
    while end > start && char_is_space(chars[end - 1])
        invariant
            start <= end <= chars.len(),
            forall|i: int| end <= i < chars.len() ==> is_space(#[trigger] chars@[i]),
        decreases end,
    {
        end -= 1;
    }
    proof {
        lemma_trimmed_start(chars@, start as int);
        let rest = chars@.skip(start as int);
        assert forall|i: int| end - start <= i < rest.len() implies is_space(#[trigger] rest[i]) by {}
        lemma_trimmed_end(rest, end - start);
    }
    string_from(&chars, start, end)
}

/// Tells whether `c` is one of `set`.
pub fn is_one_of(c: char, set: &[char]) -> (b: bool)
    ensures
        b == set@.contains(c),
{
    let mut i: usize = 0;
    while i < set.len()
        invariant
            i <= set.len(),
            forall|j: int| 0 <= j < i ==> set@[j] != c,
        decreases set.len() - i,
    {
        if set[i] == c {
            return true;
        }
        i += 1;
    }
    false
}

/// Cuts `input` at every character that is one of `separators`.
pub fn split_any(input: &str, separators: &[char]) -> (parts: Vec<String>)
    ensures
        parts.deep_view() == pieces(input@, separators@),
{
    let mut parts: Vec<String> = Vec::new();
    let mut current = String::new();
    for c in it: input.chars()
        invariant
            it.seq() == input@,
            pieces(input@.take(it.index() as int), separators@) == parts.deep_view().push(current@),
    {
        assert(input@.take(it.index() + 1).drop_last() =~= input@.take(it.index() as int));
        if is_one_of(c, separators) {
            parts.push(current);
            current = String::new();
        } else {
            current.push(c);
        }
    }
    parts.push(current);
    assert(input@.take(input@.len() as int) =~= input@);
    parts
}

/// Tells whether `pattern` stands in `chars` at position `at`.
pub fn stands_at(chars: &Vec<char>, pattern: &Vec<char>, at: usize) -> (b: bool)
    ensures
        b == occurs_at(chars@, pattern@, at as int),
{
    if pattern.len() > chars.len() || at > chars.len() - pattern.len() {
        return false;
    }
    let mut i: usize = 0;
    while i < pattern.len()
        invariant
            i <= pattern.len(),
            at + pattern.len() <= chars.len(),
            forall|j: int| 0 <= j < i ==> chars@[at + j] == pattern@[j],
        decreases pattern.len() - i,
    {
        if chars[at + i] != pattern[i] {
            return false;
        }
        i += 1;
    }
    assert(chars@.subrange(at as int, at + pattern.len()) =~= pattern@);
    true
}

/// Cuts `input` at every occurrence of `pattern`, found from left to right.
/// An empty pattern cuts nowhere.
pub fn split_on(input: &str, pattern: &str) -> (parts: Vec<String>)
    ensures
        parts.deep_view() == pieces_between(input@, pattern@),
{
    let chars = to_chars(input);
    let pat = to_chars(pattern);
    let mut parts: Vec<String> = Vec::new();
    let mut start: usize = 0;
    let mut pos: usize = 0;
    proof {
        assert(chars@.skip(0) =~= chars@);
    }
    while 0 < pat.len() && pat.len() <= chars.len() && pos <= chars.len() - pat.len()
        invariant
            start <= pos <= chars.len(),
            pieces_between(chars@, pat@) == parts.deep_view() + pieces_between(
                chars@.skip(start as int),
                pat@,
            ),
            forall|j: int| start <= j < pos ==> !occurs_at(chars@, pat@, j),
        decreases chars.len() - pos,
    {
        if stands_at(&chars, &pat, pos) {
            let ghost rest = chars@.skip(start as int);
            proof {
                lemma_first_occurrence_skip(chars@, pat@, start as int, 0, pos as int);
                assert(rest.take(pos - start) =~= chars@.subrange(start as int, pos as int));
                assert(rest.skip(pos - start + pat@.len()) =~= chars@.skip(pos + pat@.len()));
            }
            parts.push(string_from(&chars, start, pos));
            pos = pos + pat.len();
            start = pos;
        } else {
            pos += 1;
        }
    }
    proof {
        if pat@.len() > 0 {
            lemma_first_occurrence_skip(chars@, pat@, start as int, 0, pos as int);
        }
    }
    parts.push(string_from(&chars, start, chars.len()));
    parts
}

/// Cuts `input` into its lines.
pub fn lines(input: &str) -> (out: Vec<String>)
    ensures
        out.deep_view() == lines_of(input@),
{
    let mut out: Vec<String> = Vec::new();
    let mut current: Vec<char> = Vec::new();
    for c in it: input.chars()
        invariant
            it.seq() == input@,
            pieces(input@.take(it.index() as int), seq!['\n']).len() >= 1,
            out.deep_view() == pieces(input@.take(it.index() as int), seq!['\n']).drop_last().map_values(
                |line: Seq<char>| without_final_cr(line),
            ),
            current@ == pieces(input@.take(it.index() as int), seq!['\n']).last(),
    {
        let ghost cut = pieces(input@.take(it.index() as int), seq!['\n']);
        assert(input@.take(it.index() + 1).drop_last() =~= input@.take(it.index() as int));
        assert(seq!['\n'].contains(c) <==> c == '\n') by {
            assert(seq!['\n'][0] == '\n');
        }
        if c == '\n' {
            let ghost old_out = out.deep_view();
            let n = current.len();
            let line = if n > 0 && current[n - 1] == '\r' {
                string_from(&current, 0, n - 1)
            } else {
                string_from(&current, 0, n)
            };
            assert(line@ =~= without_final_cr(current@));
            out.push(line);
            current = Vec::new();
            assert(out.deep_view() =~= old_out.push(without_final_cr(cut.last())));
        } else {
            current.push(c);
        }
    }
    assert(input@.take(input@.len() as int) =~= input@);
    if current.len() > 0 {
        let line = string_from(&current, 0, current.len());
        assert(line@ =~= current@);
        out.push(line);
    }
    out
}

/// Joins the texts of `parts` from index `from` on, with `separator` between
/// each two.
pub fn join_from(parts: &Vec<String>, from: usize, separator: &str) -> (out: String)
    requires
        from <= parts.len(),
    ensures
        out@ == joined(parts.deep_view().skip(from as int), separator@),
{
    let ghost texts = parts.deep_view().skip(from as int);
    let mut out = String::new();
    let mut i: usize = from;
    while i < parts.len()
        invariant
            from <= i <= parts.len(),
            texts == parts.deep_view().skip(from as int),
            out@ == joined(texts.take(i - from), separator@),
        decreases parts.len() - i,
    {
        if i > from {
            out.append(separator);
        }
        out.append(parts[i].as_str());
        i += 1;
        assert(texts.take(i - from).drop_last() =~= texts.take(i - from - 1));
    }
    assert(texts.take(parts.len() - from) =~= texts);
    out
}

/// Replaces every carriage return that a line feed follows, together with
/// that line feed, by one line feed.
pub fn to_line_feeds(input: &str) -> (out: String)
    ensures
        out@ == with_line_feeds(input@),
{
    let chars = to_chars(input);
    let mut out = String::new();
    let mut i: usize = 0;
    proof {
        assert(chars@.skip(0) =~= chars@);
    }
    while i < chars.len()
        invariant
            i <= chars.len(),
            out@ + with_line_feeds(chars@.skip(i as int)) == with_line_feeds(chars@),
        decreases chars.len() - i,
    {
        let ghost rest = chars@.skip(i as int);
        if chars[i] == '\r' && i + 1 < chars.len() && chars[i + 1] == '\n' {
            out.push('\n');
            i += 2;
            assert(rest.skip(2) =~= chars@.skip(i as int));
        } else {
            out.push(chars[i]);
            i += 1;
            assert(rest.skip(1) =~= chars@.skip(i as int));
        }
    }
    out
}

} // verus!
