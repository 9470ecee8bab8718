//! Files that list paths to watch: one path on a line, with blank lines and
//! lines that start with `#` left out.

use vstd::prelude::*;

use crate::text;


verus! {

/// Whether a character is white space, as Unicode has it.
pub open spec fn is_white_space(c: char) -> bool {
    let n = c as int;
    ||| 0x9 <= n <= 0xd
    ||| n == 0x20
    ||| n == 0x85
    ||| n == 0xa0
    ||| n == 0x1680
    ||| 0x2000 <= n <= 0x200a
    ||| n == 0x2028
    ||| n == 0x2029
    ||| n == 0x202f
    ||| n == 0x205f
    ||| n == 0x3000
}

fn white_space(c: char) -> (r: bool)
    ensures
        r == is_white_space(c),
{
    let n: u32 = c as u32;
    (0x9 <= n && n <= 0xd) || n == 0x20 || n == 0x85 || n == 0xa0 || n == 0x1680 || (0x2000 <= n && n
        <= 0x200a) || n == 0x2028 || n == 0x2029 || n == 0x202f || n == 0x205f || n == 0x3000
}

/// A text without the white space it starts with.
pub open spec fn trim_start(s: Seq<char>) -> Seq<char>
    decreases s.len(),
{
    if s.len() > 0 && is_white_space(s[0]) {
        trim_start(s.drop_first())
    } else {
        s
    }
}

/// A text without the white space it ends with.
pub open spec fn trim_end(s: Seq<char>) -> Seq<char>
    decreases s.len(),
{
    if s.len() > 0 && is_white_space(s.last()) {
        trim_end(s.drop_last())
    } else {
        s
    }
}

/// A text without the white space around it.
pub open spec fn trimmed(s: Seq<char>) -> Seq<char> {
    trim_end(trim_start(s))
}

/// What stands between the line breaks of a text.
pub open spec fn lines_of(s: Seq<char>) -> Seq<Seq<char>>
    decreases s.len(),
{
    if s.len() == 0 {
        seq![Seq::<char>::empty()]
    } else {
        let before = lines_of(s.drop_last());
        if s.last() == '\n' {
            before.push(Seq::empty())
        } else {
            before.drop_last().push(before.last().push(s.last()))
        }
    }
}

/// Whether a line, already trimmed, names a path.
pub open spec fn names_path(line: Seq<char>) -> bool {
    line.len() > 0 && line[0] != '#'
}

/// The paths that lines name, in order.
pub open spec fn paths_of(lines: Seq<Seq<char>>) -> Seq<Seq<char>>
    decreases lines.len(),
{
    if lines.len() == 0 {
        Seq::empty()
    } else {
        let before = paths_of(lines.drop_last());
        let line = trimmed(lines.last());
        if names_path(line) {
            before.push(line)
        } else {
            before
        }
    }
}

fn chars_of(s: &str) -> (r: Vec<char>)
    ensures
        r@ == s@,
{
    let mut out: Vec<char> = Vec::new();
    for c in it: s.chars()
        invariant
            it.seq() == s@,
            out@ == it.seq().take(it.index()),
    {
        out.push(c);
    }
    assert(out@ =~= s@);
    out
}

/// Where the trimmed text of the characters from `from` to `to` begins and
/// ends.
fn trim_bounds(chars: &Vec<char>, from: usize, to: usize) -> (r: (usize, usize))
    requires
        from <= to <= chars.len(),
    ensures
        from <= r.0 <= r.1 <= to,
        chars@.subrange(r.0 as int, r.1 as int) == trimmed(chars@.subrange(from as int, to as int)),
{
    let ghost line = chars@.subrange(from as int, to as int);
    let mut a: usize = from;
    while a < to && white_space(chars[a])
        invariant
            from <= a <= to <= chars.len(),
            trim_start(chars@.subrange(a as int, to as int)) == trim_start(line),
        decreases to - a,
    {
        assert(chars@.subrange(a as int, to as int).drop_first() =~= chars@.subrange(
            a + 1,
            to as int,
        ));
        a = a + 1;
    }
    let ghost rest = chars@.subrange(a as int, to as int);
    assert(trim_start(line) == rest);
    let mut b: usize = to;
    while b > a && white_space(chars[b - 1])
        invariant
            from <= a <= b <= to <= chars.len(),
            trim_end(chars@.subrange(a as int, b as int)) == trim_end(rest),
        decreases b,
    {
        assert(chars@.subrange(a as int, b as int).drop_last() =~= chars@.subrange(
            a as int,
            b - 1,
        ));
        b = b - 1;
    }
    (a, b)
}

/// Adds the path on one line, if it names one.
fn push_path(
    contents: &str,
    chars: &Vec<char>,
    from: usize,
    to: usize,
    out: &mut Vec<String>,
)
    requires
        chars@ == contents@,
        from <= to <= chars.len(),
    ensures
        text::texts(final(out)@) == text::texts(old(out)@) + paths_of(
            seq![chars@.subrange(from as int, to as int)],
        ),
{
    let ghost line = chars@.subrange(from as int, to as int);
    let ghost before = out@;
    let (a, b): (usize, usize) = trim_bounds(chars, from, to);
    proof {
        reveal_with_fuel(paths_of, 2);
        assert(seq![line].drop_last() =~= Seq::<Seq<char>>::empty());
    }
    if a < b && chars[a] != '#' {
        out.push(contents.substring_char(a, b).to_owned());
        assert(text::texts(out@) =~= text::texts(before) + paths_of(seq![line]));
    } else {
        assert(text::texts(out@) =~= text::texts(before) + paths_of(seq![line]));
    }
}

proof fn lemma_paths_of_push(lines: Seq<Seq<char>>, line: Seq<char>)
    ensures
        paths_of(lines.push(line)) == paths_of(lines) + paths_of(seq![line]),
{
    reveal_with_fuel(paths_of, 2);
    assert(lines.push(line).drop_last() =~= lines);
    assert(seq![line].drop_last() =~= Seq::<Seq<char>>::empty());
    assert(paths_of(lines.push(line)) =~= paths_of(lines) + paths_of(seq![line]));
}

/// The paths to watch: those named one by one, and then those that a file
/// lists, whose contents are given where there is one. Carriage returns are
/// white space, so lines may end with either kind of line break.
pub fn load_watch_paths(watch: Vec<String>, contents: Option<&str>) -> (r: Vec<String>)
    ensures
        text::texts(r@) == match contents {
            Some(contents) => text::texts(watch@) + paths_of(lines_of(contents@)),
            None => text::texts(watch@),
        },
{
    let ghost named = text::texts(watch@);
    let mut out: Vec<String> = watch;
    let contents: &str = match contents {
        Some(contents) => contents,
        None => {
            return out;
        },
    };
    let chars: Vec<char> = chars_of(contents);
    let mut start: usize = 0;
    let mut i: usize = 0;
    proof {
        assert(chars@.take(0) =~= Seq::<char>::empty());
        assert(lines_of(chars@.take(0)).drop_last() =~= Seq::<Seq<char>>::empty());
        assert(chars@.subrange(0, 0) =~= Seq::<char>::empty());
        assert(named + paths_of(Seq::<Seq<char>>::empty()) =~= named);
    }
    while i < chars.len()
        invariant
            start <= i <= chars.len(),
            chars@ == contents@,
            lines_of(chars@.take(i as int)).len() > 0,
            lines_of(chars@.take(i as int)).last() == chars@.subrange(start as int, i as int),
            text::texts(out@) == named + paths_of(lines_of(chars@.take(i as int)).drop_last()),
        decreases chars.len() - i,
    {
        let ghost lines = lines_of(chars@.take(i as int));
        let ghost line = chars@.subrange(start as int, i as int);
        proof {
            assert(chars@.take(i + 1).drop_last() =~= chars@.take(i as int));
            assert(lines =~= lines.drop_last().push(line));
        }
        if chars[i] == '\n' {
            push_path(contents, &chars, start, i, &mut out);
            proof {
                lemma_paths_of_push(lines.drop_last(), line);
                let after = lines_of(chars@.take(i + 1));
                assert(after.drop_last() =~= lines);
                assert(text::texts(out@) =~= named + paths_of(lines));
                assert(chars@.subrange(i + 1, i + 1) =~= Seq::<char>::empty());
            }
            start = i + 1;
        } else {
            proof {
                let after = lines_of(chars@.take(i + 1));
                assert(after.drop_last() =~= lines.drop_last());
                assert(after.last() =~= chars@.subrange(start as int, i + 1));
            }
        }
        i = i + 1;
    }
    push_path(contents, &chars, start, i, &mut out);
    proof {
        let lines = lines_of(chars@);
        assert(chars@.take(i as int) =~= chars@);
        assert(lines =~= lines.drop_last().push(lines.last()));
        lemma_paths_of_push(lines.drop_last(), lines.last());
        assert(text::texts(out@) =~= named + paths_of(lines));
    }
    out
}

/// Whether a text names a path and has no white space around it.
pub open spec fn is_plain(path: Seq<char>) -> bool {
    names_path(path) && trimmed(path) == path
}

/// Every path that a file lists is a text without white space around it, is not
/// empty and does not start with `#`.
pub proof fn law_listed_paths_are_plain(lines: Seq<Seq<char>>)
    ensures
        forall|i: int|
            0 <= i < paths_of(lines).len() ==> is_plain(#[trigger] paths_of(lines)[i]),
    decreases lines.len(),
{
    if lines.len() > 0 {
        law_listed_paths_are_plain(lines.drop_last());
        lemma_trimming_twice(lines.last());
        let before = paths_of(lines.drop_last());
        assert forall|i: int| 0 <= i < paths_of(lines).len() implies is_plain(
            #[trigger] paths_of(lines)[i],
        ) by {
            if i < before.len() {
                assert(paths_of(lines)[i] == before[i]);
            }
        }
    }
}

/// A carriage return before a line break makes no difference to the path on the
/// line.
pub proof fn law_carriage_returns_are_ignored(line: Seq<char>)
    ensures
        trimmed(line.push('\r')) == trimmed(line),
{
    lemma_trim_start_push(line, '\r');
    let rest = trim_start(line);
    if rest.len() > 0 {
        assert(rest.push('\r').drop_last() =~= rest);
    }
}

proof fn lemma_trim_start_push(s: Seq<char>, c: char)
    requires
        is_white_space(c),
    ensures
        trim_start(s.push(c)) == if trim_start(s).len() == 0 {
            trim_start(s)
        } else {
            trim_start(s).push(c)
        },
    decreases s.len(),
{
    if s.len() == 0 {
        assert(s.push(c).drop_first() =~= s);
    } else if is_white_space(s[0]) {
        assert(s.push(c).drop_first() =~= s.drop_first().push(c));
        lemma_trim_start_push(s.drop_first(), c);
    }
}

proof fn lemma_trimming_twice(s: Seq<char>)
    ensures
        trimmed(trimmed(s)) == trimmed(s),
{
    lemma_trim_start_starts(s);
    lemma_trim_end_ends(trim_start(s));
}

proof fn lemma_trim_start_starts(s: Seq<char>)
    ensures
        trim_start(s).len() > 0 ==> !is_white_space(trim_start(s)[0]),
    decreases s.len(),
{
    if s.len() > 0 && is_white_space(s[0]) {
        lemma_trim_start_starts(s.drop_first());
    }
}

proof fn lemma_trim_end_ends(s: Seq<char>)
    ensures
        trim_end(s).len() > 0 ==> !is_white_space(trim_end(s).last()) && trim_end(s)[0] == s[0],
    decreases s.len(),
{
    if s.len() > 0 && is_white_space(s.last()) {
        lemma_trim_end_ends(s.drop_last());
    }
}

/// Lines put together with a line break between them.
pub open spec fn with_breaks(lines: Seq<Seq<char>>) -> Seq<char>
    decreases lines.len(),
{
    if lines.len() == 0 {
        Seq::empty()
    } else if lines.len() == 1 {
        lines[0]
    } else {
        with_breaks(lines.drop_last()).push('\n') + lines.last()
    }
}

/// The lines of a text are the text again when they are put together with line
/// breaks, and no line holds one.
pub proof fn law_lines_make_up_the_text(s: Seq<char>)
    ensures
        lines_of(s).len() > 0,
        with_breaks(lines_of(s)) == s,
        forall|i: int| 0 <= i < lines_of(s).len() ==> !(#[trigger] lines_of(s)[i]).contains('\n'),
    decreases s.len(),
{
    let lines = lines_of(s);
    if s.len() == 0 {
        assert(with_breaks(lines) =~= s);
    } else {
        let c = s.last();
        let before = lines_of(s.drop_last());
        law_lines_make_up_the_text(s.drop_last());
        assert(s =~= s.drop_last().push(c));
        if c == '\n' {
            assert(lines.drop_last() =~= before);
            assert(with_breaks(lines) =~= s);
            assert forall|i: int| 0 <= i < lines.len() implies !(#[trigger] lines[i]).contains(
                '\n',
            ) by {
                if i < before.len() {
                    assert(lines[i] == before[i]);
                }
            }
        } else {
            let last = before.last().push(c);
            assert(lines.drop_last() =~= before.drop_last());
            if before.len() == 1 {
                assert(with_breaks(lines) =~= s);
            } else {
                assert(with_breaks(lines) =~= with_breaks(before).push(c));
            }
            assert forall|i: int| 0 <= i < lines.len() implies !(#[trigger] lines[i]).contains(
                '\n',
            ) by {
                if i < before.len() - 1 {
                    assert(lines[i] == before[i]);
                } else {
                    let b = before[before.len() - 1];
                    assert(!b.contains('\n'));
                    assert forall|j: int| 0 <= j < last.len() implies last[j] != '\n' by {
                        if j < b.len() {
                            assert(b.contains(b[j]));
                        }
                    }
                }
            }
        }
    }
}

/// Trimming takes white space off both ends of a text, all of it, and nothing
/// else.
pub proof fn law_trimming_takes_white_space_only(s: Seq<char>)
    ensures
        exists|i: int, j: int|
            {
                &&& 0 <= i <= j <= s.len()
                &&& trimmed(s) == #[trigger] s.subrange(i, j)
                &&& forall|k: int| 0 <= k < i || j <= k < s.len() ==> is_white_space(#[trigger] s[k])
            },
        trimmed(s).len() > 0 ==> !is_white_space(trimmed(s)[0]) && !is_white_space(
            trimmed(s)[trimmed(s).len() - 1],
        ),
{
    let i = lemma_trim_start_cut(s);
    let rest = s.skip(i);
    let m = lemma_trim_end_cut(rest);
    let j = i + m;
    lemma_trim_start_starts(s);
    lemma_trim_end_ends(rest);
    assert(trimmed(s) =~= s.subrange(i, j));
    assert forall|k: int| 0 <= k < i || j <= k < s.len() implies is_white_space(#[trigger] s[k]) by {
        if j <= k {
            assert(rest[k - i] == s[k]);
        }
    }
}

proof fn lemma_trim_start_cut(s: Seq<char>) -> (i: int)
    ensures
        0 <= i <= s.len(),
        trim_start(s) == s.skip(i),
        forall|k: int| 0 <= k < i ==> is_white_space(#[trigger] s[k]),
    decreases s.len(),
{
    if s.len() > 0 && is_white_space(s[0]) {
        let rest = s.drop_first();
        let i = lemma_trim_start_cut(rest);
        assert(rest.skip(i) =~= s.skip(i + 1));
        assert forall|k: int| 0 <= k < i + 1 implies is_white_space(#[trigger] s[k]) by {
            if k > 0 {
                assert(rest[k - 1] == s[k]);
            }
        }
        i + 1
    } else {
        assert(s.skip(0) =~= s);
        0
    }
}

proof fn lemma_trim_end_cut(s: Seq<char>) -> (m: int)
    ensures
        0 <= m <= s.len(),
        trim_end(s) == s.take(m),
        forall|k: int| m <= k < s.len() ==> is_white_space(#[trigger] s[k]),
    decreases s.len(),
{
    if s.len() > 0 && is_white_space(s.last()) {
        let rest = s.drop_last();
        let m = lemma_trim_end_cut(rest);
        assert(rest.take(m) =~= s.take(m));
        assert forall|k: int| m <= k < s.len() implies is_white_space(#[trigger] s[k]) by {
            if k < s.len() - 1 {
                assert(rest[k] == s[k]);
            }
        }
        m
    } else {
        assert(s.take(s.len() as int) =~= s);
        s.len() as int
    }
}

/// The paths of two lists of lines are those of the first and then those of the
/// second. A line that is blank, or whose first character that is not white
/// space is `#`, names none; any other names the one path that stands on it.
pub proof fn law_each_line_names_its_path(
    a: Seq<Seq<char>>,
    b: Seq<Seq<char>>,
    line: Seq<char>,
)
    ensures
        paths_of(a + b) == paths_of(a) + paths_of(b),
        trimmed(line).len() == 0 || trimmed(line)[0] == '#' ==> paths_of(seq![line])
            == Seq::<Seq<char>>::empty(),
        trimmed(line).len() > 0 && trimmed(line)[0] != '#' ==> paths_of(seq![line]) == seq![
            trimmed(line),
        ],
    decreases b.len(),
{
    reveal_with_fuel(paths_of, 2);
    assert(seq![line].drop_last() =~= Seq::<Seq<char>>::empty());
    assert(Seq::<Seq<char>>::empty().push(trimmed(line)) =~= seq![trimmed(line)]);
    if b.len() == 0 {
        assert(a + b =~= a);
        assert(paths_of(a) + paths_of(b) =~= paths_of(a));
    } else {
        law_each_line_names_its_path(a, b.drop_last(), line);
        assert((a + b).drop_last() =~= a + b.drop_last());
        assert((a + b).last() == b.last());
        assert(paths_of(a + b) =~= paths_of(a) + paths_of(b));
    }
}

/// White space is what Unicode has as such, and no other character.
pub proof fn law_white_space_is_as_unicode_has_it(c: char)
    ensures
        is_white_space(c) <==> {
            ||| c == '\t' || c == '\n' || c == '\u{b}' || c == '\u{c}' || c == '\r' || c == ' '
            ||| c == '\u{85}' || c == '\u{a0}' || c == '\u{1680}'
            ||| '\u{2000}' <= c <= '\u{200a}'
            ||| c == '\u{2028}' || c == '\u{2029}' || c == '\u{202f}' || c == '\u{205f}' || c
                == '\u{3000}'
        },
{
}

} // verus!
