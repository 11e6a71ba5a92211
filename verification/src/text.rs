//! Text operations on characters: trimming, searching, splitting, joining.

use vstd::prelude::*;

verus! {

/// The characters with Unicode's `White_Space` property.
pub open spec fn is_white_space(c: char) -> bool {
    let n = c as u32;
    ||| 0x9 <= n <= 0xd
    ||| n == 0x20
    ||| n == 0x85
    ||| n == 0xa0
    ||| n == 0x1680
    ||| 0x2000 <= n <= 0x200a
    ||| n == 0x2028
    ||| n == 0x2029
    ||| n == 0x202f
    ||| n == 0x205f
    ||| n == 0x3000
}

/// `s` without its leading white space.
pub open spec fn trimmed_start(s: Seq<char>) -> Seq<char>
    decreases s.len(),
{
    if s.len() > 0 && is_white_space(s[0]) {
        trimmed_start(s.skip(1))
    } else {
        s
    }
}

/// `s` without its trailing white space.
pub open spec fn trimmed_end(s: Seq<char>) -> Seq<char>
    decreases s.len(),
{
    if s.len() > 0 && is_white_space(s.last()) {
        trimmed_end(s.drop_last())
    } else {
        s
    }
}

/// `s` without leading and trailing white space.
pub open spec fn trimmed(s: Seq<char>) -> Seq<char> {
    trimmed_end(trimmed_start(s))
}

/// The position of the first `c` in `s`.
pub open spec fn position(s: Seq<char>, c: char) -> Option<int>
    decreases s.len(),
{
    if s.len() == 0 {
        None
    } else if s[0] == c {
        Some(0)
    } else {
        match position(s.skip(1), c) {
            Some(i) => Some(i + 1),
            None => None,
        }
    }
}

/// What `position` means.
pub proof fn lemma_position(s: Seq<char>, c: char)
    ensures
        match position(s, c) {
            Some(i) => {
                &&& 0 <= i < s.len()
                &&& s[i] == c
                &&& forall|j: int| 0 <= j < i ==> s[j] != c
            },
            None => !s.contains(c),
        },
    decreases s.len(),
{
    if s.len() > 0 && s[0] != c {
        let rest = s.skip(1);
        lemma_position(rest, c);
        match position(rest, c) {
            Some(i) => {
                assert forall|j: int| 0 <= j < i + 1 implies s[j] != c by {
                    if j > 0 {
                        assert(rest[j - 1] != c);
                    }
                }
            },
            None => {
                assert forall|j: int| 0 <= j < s.len() implies s[j] != c by {
                    if j > 0 {
                        assert(rest.contains(rest[j - 1]));
                    }
                }
            },
        }
    } else if s.len() > 0 {
        assert(s.contains(s[0]));
    }
}

/// The first `c` in `s` stands at `i` once `s[i] == c` and no earlier character is `c`.
pub proof fn lemma_position_at(s: Seq<char>, c: char, i: int)
    requires
        0 <= i < s.len(),
        s[i] == c,
        forall|j: int| 0 <= j < i ==> s[j] != c,
    ensures
        position(s, c) == Some(i),
{
    lemma_position(s, c);
    assert(s.contains(c));
}

/// The parts of `s` between the occurrences of `c`: always at least one part.
pub open spec fn split_on(s: Seq<char>, c: char) -> Seq<Seq<char>>
    decreases s.len(),
{
    proof {
        lemma_position(s, c);
    }
    match position(s, c) {
        Some(i) => seq![s.take(i)] + split_on(s.skip(i + 1), c),
        None => seq![s],
    }
}

/// `line` without a carriage return at its end.
pub open spec fn without_cr(line: Seq<char>) -> Seq<char> {
    if line.len() > 0 && line.last() == '\r' {
        line.drop_last()
    } else {
        line
    }
}

/// The lines of `s`. A line ends at a line feed, or at a carriage return with a line feed
/// behind it; the ending of the last line may be left out.
pub open spec fn lines_of(s: Seq<char>) -> Seq<Seq<char>>
    decreases s.len(),
{
    proof {
        lemma_position(s, '\n');
    }
    if s.len() == 0 {
        Seq::empty()
    } else {
        match position(s, '\n') {
            Some(i) => seq![without_cr(s.take(i))] + lines_of(s.skip(i + 1)),
            None => seq![s],
        }
    }
}

/// The parts in order, with `sep` between each two.
pub open spec fn joined(parts: Seq<Seq<char>>, sep: Seq<char>) -> Seq<char>
    decreases parts.len(),
{
    if parts.len() == 0 {
        Seq::empty()
    } else if parts.len() == 1 {
        parts[0]
    } else {
        joined(parts.drop_last(), sep) + sep + parts.last()
    }
}

/// What a string that may be missing holds.
pub open spec fn view_of(s: Option<String>) -> Option<Seq<char>> {
    match s {
        Some(s) => Some(s@),
        None => None,
    }
}

/// What the strings of a vector hold.
pub open spec fn views(parts: Seq<String>) -> Seq<Seq<char>> {
    parts.map_values(|p: String| p@)
}

/// What the string slices of a vector hold.
pub open spec fn str_views(parts: Seq<&str>) -> Seq<Seq<char>> {
    parts.map_values(|p: &str| p@)
}

/// The characters of `s`.
pub fn chars_of(s: &str) -> (chars: Vec<char>)
    ensures
        chars@ == s@,
{
    let mut chars: Vec<char> = Vec::new();
    for c in it: s.chars()
        invariant
            it.seq() == s@,
            chars@ == s@.take(it.index()),
    {
        chars.push(c);
    }
    chars
}

/// Whether `c` is white space.
pub fn white_space(c: char) -> (yes: bool)
    ensures
        yes == is_white_space(c),
{
    let n: u32 = c as u32;
    (n >= 0x9 && n <= 0xd) || n == 0x20 || n == 0x85 || n == 0xa0 || n == 0x1680
        || (n >= 0x2000 && n <= 0x200a) || n == 0x2028 || n == 0x2029 || n == 0x202f || n == 0x205f
        || n == 0x3000
}

/// `s` without leading and trailing white space.
pub fn trim<'a>(s: &'a str) -> (r: &'a str)
    ensures
        r@ == trimmed(s@),
{
    let chars = chars_of(s);
    let n: usize = chars.len();
    let mut from: usize = 0;
    proof {
        assert(s@.skip(0) =~= s@);
    }
    while from < n && white_space(chars[from])
        invariant
            n == chars.len(),
            chars@ == s@,
            from <= n,
            trimmed_start(s@) == trimmed_start(s@.skip(from as int)),
        decreases n - from,
    {
        proof {
            assert(s@.skip(from as int).skip(1) =~= s@.skip(from + 1));
        }
        from += 1;
    }
    let ghost rest = s@.skip(from as int);
    proof {
        assert(trimmed_start(s@) == rest);
        assert(rest.take(n - from) =~= rest);
    }
    let mut to: usize = n;
    while to > from && white_space(chars[to - 1])
        invariant
            n == chars.len(),
            chars@ == s@,
            from <= to <= n,
            rest == s@.skip(from as int),
            trimmed_end(rest) == trimmed_end(rest.take(to - from)),
        decreases to,
    {
        proof {
            assert(rest.take(to - from).drop_last() =~= rest.take(to - from - 1));
            assert(rest.take(to - from).last() == chars@[to - 1]);
        }
        to -= 1;
    }
    proof {
        assert(rest.take(to - from) =~= s@.subrange(from as int, to as int));
    }
    s.substring_char(from, to)
}

/// Whether `a` and `b` hold the same characters.
pub fn same(a: &str, b: &str) -> (yes: bool)
    ensures
        yes == (a@ == b@),
{
    let left = chars_of(a);
    let right = chars_of(b);
    if left.len() != right.len() {
        return false;
    }
    let mut i: usize = 0;
    while i < left.len()
        invariant
            left@ == a@,
            right@ == b@,
            left.len() == right.len(),
            i <= left.len(),
            forall|j: int| 0 <= j < i ==> left@[j] == right@[j],
        decreases left.len() - i,
    {
        if left[i] != right[i] {
            return false;
        }
        i += 1;
    }
    proof {
        assert(left@ =~= right@);
    }
    true
}

/// The position of the first `c` in `s`, counted in characters.
pub fn find(s: &str, c: char) -> (r: Option<usize>)
    ensures
        match r {
            Some(i) => position(s@, c) == Some(i as int),
            None => position(s@, c) is None,
        },
{
    let chars = chars_of(s);
    let mut i: usize = 0;
    while i < chars.len()
        invariant
            chars@ == s@,
            i <= chars.len(),
            forall|j: int| 0 <= j < i ==> s@[j] != c,
        decreases chars.len() - i,
    {
        if chars[i] == c {
            proof {
                lemma_position_at(s@, c, i as int);
            }
            return Some(i);
        }
        i += 1;
    }
    proof {
        lemma_position(s@, c);
    }
    None
}

/// The parts of `s` between the occurrences of `c`.
pub fn split<'a>(s: &'a str, c: char) -> (parts: Vec<&'a str>)
    ensures
        str_views(parts@) == split_on(s@, c),
{
    let mut parts: Vec<&'a str> = Vec::new();
    let mut rest: &'a str = s;
    proof {
        assert(str_views(parts@) + split_on(rest@, c) =~= split_on(s@, c));
    }
    loop
        invariant
            str_views(parts@) + split_on(rest@, c) == split_on(s@, c),
        decreases rest@.len(),
    {
        let ghost before = parts@;
        match find(rest, c) {
            Some(i) => {
                proof {
                    lemma_position(rest@, c);
                }
                let len: usize = rest.unicode_len();
                let head: &'a str = rest.substring_char(0, i);
                let tail: &'a str = rest.substring_char(i + 1, len);
                parts.push(head);
                proof {
                    assert(head@ =~= rest@.take(i as int));
                    assert(tail@ =~= rest@.skip(i + 1));
                    assert(str_views(parts@) =~= str_views(before).push(head@));
                    assert(str_views(parts@) + split_on(tail@, c) =~= str_views(before)
                        + split_on(rest@, c));
                }
                rest = tail;
            },
            None => {
                parts.push(rest);
                proof {
                    assert(str_views(parts@) =~= str_views(before) + seq![rest@]);
                }
                return parts;
            },
        }
    }
}

/// The lines of `s`.
pub fn lines<'a>(s: &'a str) -> (found: Vec<&'a str>)
    ensures
        str_views(found@) == lines_of(s@),
{
    let mut found: Vec<&'a str> = Vec::new();
    let mut rest: &'a str = s;
    proof {
        assert(str_views(found@) + lines_of(rest@) =~= lines_of(s@));
    }
    loop
        invariant
            str_views(found@) + lines_of(rest@) == lines_of(s@),
        decreases rest@.len(),
    {
        let ghost before = found@;
        let len: usize = rest.unicode_len();
        if len == 0 {
            proof {
                assert(str_views(found@) + lines_of(rest@) =~= str_views(found@));
            }
            return found;
        }
        match find(rest, '\n') {
            Some(i) => {
                proof {
                    lemma_position(rest@, '\n');
                }
                let end: usize = if i > 0 && rest.get_char(i - 1) == '\r' {
                    i - 1
                } else {
                    i
                };
                let line: &'a str = rest.substring_char(0, end);
                let tail: &'a str = rest.substring_char(i + 1, len);
                found.push(line);
                proof {
                    assert(line@ =~= without_cr(rest@.take(i as int)));
                    assert(tail@ =~= rest@.skip(i + 1));
                    assert(str_views(found@) =~= str_views(before).push(line@));
                    assert(str_views(found@) + lines_of(tail@) =~= str_views(before)
                        + lines_of(rest@));
                }
                rest = tail;
            },
            None => {
                found.push(rest);
                proof {
                    assert(str_views(found@) =~= str_views(before) + seq![rest@]);
                }
                return found;
            },
        }
    }
}

/// The parts in order, with `sep` between each two.
pub fn join(parts: &Vec<String>, sep: &str) -> (r: String)
    ensures
        r@ == joined(views(parts@), sep@),
{
    let mut r: String = String::new();
    let mut i: usize = 0;
    while i < parts.len()
        invariant
            i <= parts.len(),
            r@ == joined(views(parts@).take(i as int), sep@),
        decreases parts.len() - i,
    {
        proof {
            assert(views(parts@).take(i + 1).drop_last() =~= views(parts@).take(i as int));
        }
        if i > 0 {
            r.append(sep);
        }
        r.append(parts[i].as_str());
        i += 1;
    }
    proof {
        assert(views(parts@).take(parts.len() as int) =~= views(parts@));
    }
    r
}

/// Text that neither starts nor ends with white space is left as it is.
pub proof fn lemma_trimmed_already(s: Seq<char>)
    requires
        s.len() > 0,
        !is_white_space(s[0]),
        !is_white_space(s.last()),
    ensures
        trimmed(s) == s,
{
}

/// Taking white space off the front leaves an end of the text.
proof fn lemma_trimmed_start(s: Seq<char>)
    ensures
        trimmed_start(s).len() <= s.len(),
        trimmed_start(s) == s.skip(s.len() - trimmed_start(s).len()),
        trimmed_start(s).len() > 0 ==> !is_white_space(trimmed_start(s)[0]),
        forall|i: int|
            0 <= i < s.len() - trimmed_start(s).len() ==> is_white_space(#[trigger] s[i]),
    decreases s.len(),
{
    if s.len() > 0 && is_white_space(s[0]) {
        let rest = s.skip(1);
        lemma_trimmed_start(rest);
        assert forall|i: int| 0 <= i < s.len() - trimmed_start(s).len() implies is_white_space(
            #[trigger] s[i],
        ) by {
            if i > 0 {
                assert(rest[i - 1] == s[i]);
            }
        }
        assert(trimmed_start(s) =~= s.skip(s.len() - trimmed_start(s).len()));
    } else {
        assert(s.skip(0) =~= s);
    }
}

/// Taking white space off the end leaves a beginning of the text.
proof fn lemma_trimmed_end(s: Seq<char>)
    ensures
        trimmed_end(s).len() <= s.len(),
        trimmed_end(s) == s.take(trimmed_end(s).len() as int),
        trimmed_end(s).len() > 0 ==> !is_white_space(trimmed_end(s).last()),
        forall|i: int| trimmed_end(s).len() <= i < s.len() ==> is_white_space(#[trigger] s[i]),
    decreases s.len(),
{
    if s.len() > 0 && is_white_space(s.last()) {
        lemma_trimmed_end(s.drop_last());
        assert forall|i: int| trimmed_end(s).len() <= i < s.len() implies is_white_space(
            #[trigger] s[i],
        ) by {
            if i < s.len() - 1 {
                assert(s.drop_last()[i] == s[i]);
            }
        }
        assert(trimmed_end(s) =~= s.take(trimmed_end(s).len() as int));
    } else {
        assert(s.take(s.len() as int) =~= s);
    }
}

/// Trimming takes white space off both ends and nothing else, and leaves none there.
pub proof fn law_trim(s: Seq<char>)
    ensures
        exists|from: int, to: int|
            #![trigger s.subrange(from, to)]
            {
                &&& 0 <= from <= to <= s.len()
                &&& trimmed(s) == s.subrange(from, to)
                &&& forall|i: int| 0 <= i < from ==> is_white_space(#[trigger] s[i])
                &&& forall|i: int| to <= i < s.len() ==> is_white_space(#[trigger] s[i])
            },
        trimmed(s).len() > 0 ==> !is_white_space(trimmed(s)[0]) && !is_white_space(
            trimmed(s).last(),
        ),
        trimmed(trimmed(s)) == trimmed(s),
{
    lemma_trimmed_start(s);
    let rest = trimmed_start(s);
    lemma_trimmed_end(rest);
    let from = s.len() - rest.len();
    let to = from + trimmed(s).len();
    assert(trimmed(s) =~= s.subrange(from, to));
    assert forall|i: int| to <= i < s.len() implies is_white_space(#[trigger] s[i]) by {
        assert(rest[i - from] == s[i]);
    }
    if trimmed(s).len() > 0 {
        assert(trimmed(s)[0] == rest[0]);
        lemma_trimmed_already(trimmed(s));
    }
}

/// Joining with a part in front.
proof fn lemma_joined_front(first: Seq<char>, rest: Seq<Seq<char>>, sep: Seq<char>)
    requires
        rest.len() > 0,
    ensures
        joined(seq![first] + rest, sep) == first + sep + joined(rest, sep),
    decreases rest.len(),
{
    let all = seq![first] + rest;
    assert(all.last() == rest.last());
    assert(joined(all, sep) == joined(all.drop_last(), sep) + sep + rest.last());
    if rest.len() == 1 {
        assert(all.drop_last() =~= seq![first]);
        assert(joined(seq![first], sep) == first);
    } else {
        assert(all.drop_last() =~= seq![first] + rest.drop_last());
        lemma_joined_front(first, rest.drop_last(), sep);
        assert(joined(rest, sep) == joined(rest.drop_last(), sep) + sep + rest.last());
    }
    assert(joined(all, sep) =~= first + sep + joined(rest, sep));
}

/// The parts of a split text make up the text again, and none of them holds the separator.
pub proof fn law_split(s: Seq<char>, c: char)
    ensures
        split_on(s, c).len() > 0,
        joined(split_on(s, c), seq![c]) == s,
        forall|i: int| 0 <= i < split_on(s, c).len() ==> !(#[trigger] split_on(s, c)[i]).contains(c),
    decreases s.len(),
{
    lemma_position(s, c);
    match position(s, c) {
        Some(i) => {
            let rest = split_on(s.skip(i + 1), c);
            law_split(s.skip(i + 1), c);
            lemma_joined_front(s.take(i), rest, seq![c]);
            assert(s.take(i) + seq![c] + s.skip(i + 1) =~= s);
            assert forall|j: int| 0 <= j < split_on(s, c).len() implies !(#[trigger] split_on(
                s,
                c,
            )[j]).contains(c) by {
                if j > 0 {
                    assert(split_on(s, c)[j] == rest[j - 1]);
                }
            }
        },
        None => {},
    }
}

/// Lines, each with a line feed behind it.
pub open spec fn text_of(lines: Seq<Seq<char>>) -> Seq<char>
    decreases lines.len(),
{
    if lines.len() == 0 {
        Seq::empty()
    } else {
        lines[0] + seq!['\n'] + text_of(lines.skip(1))
    }
}

/// Lines that are written each with a line feed behind it are read back, but for a carriage return
/// at the end of a line.
pub proof fn law_lines_read_back(lines: Seq<Seq<char>>)
    requires
        forall|i: int| 0 <= i < lines.len() ==> !(#[trigger] lines[i]).contains('\n'),
    ensures
        lines_of(text_of(lines)) == lines.map_values(|l: Seq<char>| without_cr(l)),
    decreases lines.len(),
{
    let text = text_of(lines);
    let short = lines.map_values(|l: Seq<char>| without_cr(l));
    if lines.len() > 0 {
        let first = lines[0];
        let rest = lines.skip(1);
        let at = first.len() as int;
        assert(text[at] == '\n');
        assert forall|j: int| 0 <= j < at implies text[j] != '\n' by {
            assert(text[j] == first[j]);
            assert(first.contains(first[j]));
        }
        lemma_position_at(text, '\n', at);
        assert(text.take(at) =~= first);
        assert(text.skip(at + 1) =~= text_of(rest));
        assert forall|i: int| 0 <= i < rest.len() implies !(#[trigger] rest[i]).contains('\n') by {
            assert(rest[i] == lines[i + 1]);
        }
        law_lines_read_back(rest);
        assert(short =~= seq![without_cr(first)] + rest.map_values(
            |l: Seq<char>| without_cr(l),
        ));
    } else {
        assert(lines_of(text) =~= short);
    }
}

/// Whether all of `s` is white space.
pub open spec fn is_blank(s: Seq<char>) -> bool {
    forall|i: int| 0 <= i < s.len() ==> is_white_space(#[trigger] s[i])
}

/// Trimming takes blank text off both ends of a text that neither starts nor ends with white space,
/// and leaves nothing of blank text.
pub proof fn law_trim_takes_blanks(before: Seq<char>, s: Seq<char>, behind: Seq<char>)
    requires
        is_blank(before),
        is_blank(behind),
        s.len() > 0 ==> !is_white_space(s[0]) && !is_white_space(s.last()),
    ensures
        trimmed(before + s + behind) == s,
{
    let whole = before + s + behind;
    law_trim(whole);
    let (from, to) = choose|from: int, to: int|
        #![trigger whole.subrange(from, to)]
        {
            &&& 0 <= from <= to <= whole.len()
            &&& trimmed(whole) == whole.subrange(from, to)
            &&& forall|i: int| 0 <= i < from ==> is_white_space(#[trigger] whole[i])
            &&& forall|i: int| to <= i < whole.len() ==> is_white_space(#[trigger] whole[i])
        };
    let start = before.len() as int;
    let end = start + s.len();
    if s.len() > 0 {
        assert(whole[start] == s[0]);
        assert(whole[end - 1] == s.last());
        assert(from <= start && end <= to);
        if from < start {
            assert(whole[from] == before[from]);
            assert(trimmed(whole)[0] == whole[from]);
        }
        if end < to {
            assert(whole[to - 1] == behind[to - 1 - end]);
            assert(trimmed(whole).last() == whole[to - 1]);
        }
        assert(whole.subrange(from, to) =~= s);
    } else {
        if from < to {
            assert(trimmed(whole)[0] == whole[from]);
            if from < start {
                assert(whole[from] == before[from]);
            } else {
                assert(whole[from] == behind[from - end]);
            }
        }
        assert(trimmed(whole) =~= s);
    }
}

/// Joining: one part stays as it is, and two groups of parts have the separator between them.
pub proof fn law_join(a: Seq<Seq<char>>, b: Seq<Seq<char>>, sep: Seq<char>)
    ensures
        a.len() == 0 ==> joined(a, sep) == Seq::<char>::empty(),
        a.len() == 1 ==> joined(a, sep) == a[0],
        a.len() > 0 && b.len() > 0 ==> joined(a + b, sep) == joined(a, sep) + sep + joined(b, sep),
    decreases b.len(),
{
    if a.len() > 0 && b.len() > 0 {
        assert((a + b).last() == b.last());
        assert((a + b).drop_last() =~= a + b.drop_last());
        if b.len() > 1 {
            law_join(a, b.drop_last(), sep);
        } else {
            assert(a + b.drop_last() =~= a);
            assert(joined(b, sep) == b.last());
        }
        assert(joined(a + b, sep) =~= joined(a, sep) + sep + joined(b, sep));
    }
}

/// Parts without the separator are told apart again after they have been joined.
pub proof fn law_join_splits_again(parts: Seq<Seq<char>>, c: char)
    requires
        parts.len() > 0,
        forall|i: int| 0 <= i < parts.len() ==> !(#[trigger] parts[i]).contains(c),
    ensures
        split_on(joined(parts, seq![c]), c) == parts,
    decreases parts.len(),
{
    let whole = joined(parts, seq![c]);
    let first = parts[0];
    if parts.len() == 1 {
        lemma_position(whole, c);
        assert(parts =~= seq![first]);
    } else {
        let rest = parts.skip(1);
        assert(parts =~= seq![first] + rest);
        lemma_joined_front(first, rest, seq![c]);
        let at = first.len() as int;
        assert(whole[at] == c);
        assert forall|j: int| 0 <= j < at implies whole[j] != c by {
            assert(whole[j] == first[j]);
            assert(first.contains(first[j]));
        }
        lemma_position_at(whole, c, at);
        assert(whole.take(at) =~= first);
        assert(whole.skip(at + 1) =~= joined(rest, seq![c]));
        assert forall|i: int| 0 <= i < rest.len() implies !(#[trigger] rest[i]).contains(c) by {
            assert(rest[i] == parts[i + 1]);
        }
        law_join_splits_again(rest, c);
    }
}

/// Joined parts start as the first of them and end as the last.
pub proof fn lemma_joined_ends(parts: Seq<Seq<char>>, sep: Seq<char>)
    requires
        parts.len() > 0,
        parts[0].len() > 0,
        parts.last().len() > 0,
    ensures
        joined(parts, sep).len() > 0,
        joined(parts, sep)[0] == parts[0][0],
        joined(parts, sep).last() == parts.last().last(),
{
    if parts.len() > 1 {
        let rest = parts.skip(1);
        assert(parts =~= seq![parts[0]] + rest);
        lemma_joined_front(parts[0], rest, sep);
        let before = parts.drop_last();
        assert(joined(parts, sep) == joined(before, sep) + sep + parts.last());
    }
}

/// Lines: a text without a line feed is one line, unless it is empty; a line feed ends a line, with
/// a carriage return before it, and the lines behind it are those of the rest.
pub proof fn law_lines(line: Seq<char>, rest: Seq<char>)
    requires
        !line.contains('\n'),
    ensures
        lines_of(Seq::<char>::empty()) == Seq::<Seq<char>>::empty(),
        line.len() > 0 ==> lines_of(line) == seq![line],
        line.len() > 0 && line.last() == '\r' ==> lines_of(line + seq!['\n'] + rest) == seq![
            line.drop_last(),
        ] + lines_of(rest),
        line.len() == 0 || line.last() != '\r' ==> lines_of(line + seq!['\n'] + rest) == seq![line]
            + lines_of(rest),
{
    let whole = line + seq!['\n'] + rest;
    let at = line.len() as int;
    lemma_position(line, '\n');
    assert(whole[at] == '\n');
    assert forall|j: int| 0 <= j < at implies whole[j] != '\n' by {
        assert(whole[j] == line[j]);
        assert(line.contains(line[j]));
    }
    lemma_position_at(whole, '\n', at);
    assert(whole.take(at) =~= line);
    assert(whole.skip(at + 1) =~= rest);
}

/// White space: tab, line feed, vertical tab, form feed, carriage return, space, next line,
/// no-break space, and the spaces and separators beyond Latin; and no other character.
pub proof fn law_white_space(c: char)
    ensures
        is_white_space(c) <==> seq![
            '\t',
            '\n',
            '\u{b}',
            '\u{c}',
            '\r',
            ' ',
            '\u{85}',
            '\u{a0}',
            '\u{1680}',
            '\u{2000}',
            '\u{2001}',
            '\u{2002}',
            '\u{2003}',
            '\u{2004}',
            '\u{2005}',
            '\u{2006}',
            '\u{2007}',
            '\u{2008}',
            '\u{2009}',
            '\u{200a}',
            '\u{2028}',
            '\u{2029}',
            '\u{202f}',
            '\u{205f}',
            '\u{3000}',
        ].contains(c),
{
    let all = seq![
        '\t',
        '\n',
        '\u{b}',
        '\u{c}',
        '\r',
        ' ',
        '\u{85}',
        '\u{a0}',
        '\u{1680}',
        '\u{2000}',
        '\u{2001}',
        '\u{2002}',
        '\u{2003}',
        '\u{2004}',
        '\u{2005}',
        '\u{2006}',
        '\u{2007}',
        '\u{2008}',
        '\u{2009}',
        '\u{200a}',
        '\u{2028}',
        '\u{2029}',
        '\u{202f}',
        '\u{205f}',
        '\u{3000}',
    ];
    let n = c as u32;
    if is_white_space(c) {
        let i = if n <= 0xd {
            n - 0x9
        } else if n == 0x20 {
            5
        } else if n == 0x85 {
            6
        } else if n == 0xa0 {
            7
        } else if n == 0x1680 {
            8
        } else if n <= 0x200a {
            9 + n - 0x2000
        } else if n == 0x2028 {
            20
        } else if n == 0x2029 {
            21
        } else if n == 0x202f {
            22
        } else if n == 0x205f {
            23
        } else {
            24
        };
        assert(all[i] == c);
    }
}

} // verus!
