//! The text form of the peer cache: one address per line.
use vstd::prelude::*;

use crate::address::SocketAddr;

verus! {

/// The name of the file containing cached peers.
pub const PEER_CACHE_FILENAME: &'static str = "cached_router_peers";

/// The position of the first newline of `text`, or its length if it holds none.
pub open spec fn line_end(text: Seq<char>) -> nat
    decreases text.len(),
{
    if text.len() == 0 || text[0] == '\n' {
        0
    } else {
        1 + line_end(text.skip(1))
    }
}

/// `line` without the carriage return at its end, if there is one.
pub open spec fn without_cr(line: Seq<char>) -> Seq<char> {
    if line.len() > 0 && line.last() == '\r' {
        line.drop_last()
    } else {
        line
    }
}

/// The lines of `text`. A line ends with a newline, or with a carriage return and a newline; the
/// last line need not end at all.
pub open spec fn lines_of(text: Seq<char>) -> Seq<Seq<char>>
    decreases text.len(),
{
    let end = line_end(text);
    if text.len() == 0 {
        seq![]
    } else if end < text.len() {
        seq![without_cr(text.take(end as int))] + lines_of(text.skip(end as int + 1))
    } else {
        seq![text]
    }
}

/// The text that consists of `lines`, with a newline after each of them.
pub open spec fn text_of(lines: Seq<Seq<char>>) -> Seq<char>
    decreases lines.len(),
{
    if lines.len() == 0 {
        seq![]
    } else {
        lines[0] + seq!['\n'] + text_of(lines.skip(1))
    }
}

/// What a list of strings says.
pub open spec fn strings_view(lines: Seq<String>) -> Seq<Seq<char>> {
    Seq::new(lines.len(), |i: int| lines[i]@)
}

pub(crate) proof fn lemma_line_end(text: Seq<char>, end: int)
    requires
        0 <= end <= text.len(),
        forall|j: int| 0 <= j < end ==> text[j] != '\n',
        end < text.len() ==> text[end] == '\n',
    ensures
        line_end(text) == end,
    decreases text.len(),
{
    if end > 0 {
        let rest = text.skip(1);
        assert(forall|j: int| 0 <= j < rest.len() ==> rest[j] == text[j + 1]);
        lemma_line_end(rest, end - 1);
    }
}

pub(crate) proof fn lemma_line_end_is_first(text: Seq<char>)
    ensures
        line_end(text) <= text.len(),
        forall|j: int| 0 <= j < line_end(text) ==> text[j] != '\n',
        line_end(text) < text.len() ==> text[line_end(text) as int] == '\n',
    decreases text.len(),
{
    if text.len() > 0 && text[0] != '\n' {
        let rest = text.skip(1);
        lemma_line_end_is_first(rest);
        assert forall|j: int| 0 <= j < line_end(text) implies text[j] != '\n' by {
            if j > 0 {
                assert(rest[j - 1] == text[j]);
            }
        }
    }
}

/// Splits the text of a peer cache into its lines.
pub fn cache_lines(text: &str) -> (lines: Vec<String>)
    ensures
        strings_view(lines@) == lines_of(text@),
{
    let mut chars: Vec<char> = Vec::new();
    for c in it: text.chars()
        invariant
            chars@ == it.seq().take(it.index()),
            it.seq() == text@,
    {
        chars.push(c);
    }
    assert(chars@ =~= text@);
    let mut lines: Vec<String> = Vec::new();
    let mut start: usize = 0;
    assert(strings_view(lines@) + lines_of(text@.skip(0)) =~= lines_of(text@)) by {
        assert(text@.skip(0) =~= text@);
    }
    while start < chars.len()
        invariant
            start <= text@.len(),
            chars@ == text@,
            strings_view(lines@) + lines_of(text@.skip(start as int)) == lines_of(text@),
        decreases text@.len() - start,
    {
        let mut end: usize = start;
        while end < chars.len() && chars[end] != '\n'
            invariant
                start <= end <= text@.len(),
                chars@ == text@,
                forall|j: int| start <= j < end ==> text@[j] != '\n',
            decreases text@.len() - end,
        {
            end += 1;
        }
        let ghost rest = text@.skip(start as int);
        let ghost before = strings_view(lines@);
        proof {
            assert(forall|j: int| 0 <= j < rest.len() ==> rest[j] == text@[start + j]);
            lemma_line_end(rest, end - start);
        }
        let next: usize = if end < chars.len() {
            end + 1
        } else {
            end
        };
        let stop: usize = if end < chars.len() && end > start && chars[end - 1] == '\r' {
            end - 1
        } else {
            end
        };
        let line = text.substring_char(start, stop).to_owned();
        proof {
            let seen = rest.take(end - start);
            if end < text@.len() {
                assert(without_cr(seen) =~= line@);
                assert(rest.skip(end - start + 1) =~= text@.skip(next as int));
                assert(lines_of(rest) =~= seq![line@] + lines_of(text@.skip(next as int)));
            } else {
                assert(rest =~= line@);
                assert(text@.skip(next as int) =~= Seq::<char>::empty());
                assert(lines_of(rest) =~= seq![line@] + lines_of(text@.skip(next as int)));
            }
        }
        lines.push(line);
        proof {
            assert(strings_view(lines@) =~= before + seq![line@]);
            assert(strings_view(lines@) + lines_of(text@.skip(next as int)) =~= before + lines_of(
                rest,
            ));
        }
        start = next;
    }
    proof {
        assert(text@.skip(start as int) =~= Seq::<char>::empty());
        assert(strings_view(lines@) =~= lines_of(text@));
    }
    lines
}

pub(crate) proof fn lemma_text_of_push(lines: Seq<Seq<char>>, line: Seq<char>)
    ensures
        text_of(lines.push(line)) == text_of(lines) + line + seq!['\n'],
    decreases lines.len(),
{
    if lines.len() == 0 {
        assert(lines.push(line).skip(1) =~= Seq::<Seq<char>>::empty());
        assert(text_of(lines.push(line).skip(1)) =~= Seq::<char>::empty());
        assert(text_of(lines.push(line)) =~= text_of(lines) + line + seq!['\n']);
    } else {
        assert(lines.push(line).skip(1) =~= lines.skip(1).push(line));
        lemma_text_of_push(lines.skip(1), line);
        assert(text_of(lines.push(line)) =~= text_of(lines) + line + seq!['\n']);
    }
}

/// Joins lines into the text of a peer cache.
pub fn cache_text(lines: &Vec<String>) -> (text: String)
    ensures
        text@ == text_of(strings_view(lines@)),
{
    let mut text = String::new();
    let mut i: usize = 0;
    assert(strings_view(lines@).take(0) =~= Seq::<Seq<char>>::empty());
    while i < lines.len()
        invariant
            i <= lines@.len(),
            text@ == text_of(strings_view(lines@).take(i as int)),
        decreases lines@.len() - i,
    {
        proof {
            let views = strings_view(lines@);
            assert(views.take(i + 1) =~= views.take(i as int).push(views[i as int]));
            lemma_text_of_push(views.take(i as int), views[i as int]);
            reveal_strlit("\n");
            assert("\n"@ =~= seq!['\n']);
        }
        text.append(lines[i].as_str());
        text.append("\n");
        i += 1;
    }
    assert(strings_view(lines@).take(i as int) =~= strings_view(lines@));
    text
}

/// `addr` is an answer of `parse` on the line `line`.
pub open spec fn answers<F: Fn(&String) -> Option<SocketAddr>>(
    parse: F,
    line: Seq<char>,
    addr: Option<SocketAddr>,
) -> bool {
    exists|s: &String| s@ == line && #[trigger] call_ensures(parse, (s,), addr)
}

/// `read` holds an answer of `parse` on each line of `text`, in their order.
pub open spec fn is_reading<F: Fn(&String) -> Option<SocketAddr>>(
    parse: F,
    text: Seq<char>,
    read: Seq<Option<SocketAddr>>,
) -> bool {
    &&& read.len() == lines_of(text).len()
    &&& forall|i: int|
        0 <= i < read.len() ==> answers(parse, lines_of(text)[i], #[trigger] read[i])
}

/// `parse` answers as `f` does.
pub open spec fn parses_as<F: Fn(&String) -> Option<SocketAddr>>(
    parse: F,
    f: spec_fn(Seq<char>) -> Option<SocketAddr>,
) -> bool {
    forall|s: &String, addr: Option<SocketAddr>| #[trigger]
        call_ensures(parse, (s,), addr) ==> addr == f(s@)
}

/// Reads the text of a peer cache line by line; `parse` reads one line.
pub fn read_cache<F: Fn(&String) -> Option<SocketAddr>>(text: &str, parse: F) -> (read: Vec<
    Option<SocketAddr>,
>)
    requires
        forall|line: &String| #[trigger] call_requires(parse, (line,)),
    ensures
        is_reading(parse, text@, read@),
        forall|f: spec_fn(Seq<char>) -> Option<SocketAddr>| #[trigger]
            parses_as(parse, f) ==> read@ == lines_of(text@).map_values(f),
{
    let lines = cache_lines(text);
    let mut read: Vec<Option<SocketAddr>> = Vec::new();
    let mut i: usize = 0;
    while i < lines.len()
        invariant
            i <= lines@.len(),
            read@.len() == i,
            forall|line: &String| #[trigger] call_requires(parse, (line,)),
            forall|j: int|
                0 <= j < i ==> call_ensures(parse, (&lines@[j],), #[trigger] read@[j]),
        decreases lines@.len() - i,
    {
        read.push(parse(&lines[i]));
        i += 1;
    }
    proof {
        assert forall|j: int| 0 <= j < read@.len() implies answers(
            parse,
            lines_of(text@)[j],
            #[trigger] read@[j],
        ) by {
            assert(strings_view(lines@)[j] == lines@[j]@);
            assert(call_ensures(parse, (&lines@[j],), read@[j]));
        }
        assert forall|f: spec_fn(Seq<char>) -> Option<SocketAddr>| #[trigger]
            parses_as(parse, f) implies read@ == lines_of(text@).map_values(f) by {
            assert forall|j: int| 0 <= j < read@.len() implies read@[j] == f(
                lines_of(text@)[j],
            ) by {
                assert(strings_view(lines@)[j] == lines@[j]@);
                assert(call_ensures(parse, (&lines@[j],), read@[j]));
            }
            assert(read@ =~= lines_of(text@).map_values(f));
        }
    }
    read
}

/// `lines` are answers of `show` on each of `addrs`, in their order.
pub open spec fn is_showing<F: Fn(&SocketAddr) -> String>(
    show: F,
    addrs: Seq<SocketAddr>,
    lines: Seq<String>,
) -> bool {
    &&& lines.len() == addrs.len()
    &&& forall|i: int|
        0 <= i < lines.len() ==> call_ensures(show, (&addrs[i],), #[trigger] lines[i])
}

/// `show` answers as `f` does.
pub open spec fn shows_as<F: Fn(&SocketAddr) -> String>(
    show: F,
    f: spec_fn(SocketAddr) -> Seq<char>,
) -> bool {
    forall|addr: &SocketAddr, line: String| #[trigger]
        call_ensures(show, (addr,), line) ==> line@ == f(*addr)
}

/// Writes the text of a peer cache; `show` writes one address.
pub fn write_cache<F: Fn(&SocketAddr) -> String>(addrs: &Vec<SocketAddr>, show: F) -> (text: String)
    requires
        forall|addr: &SocketAddr| #[trigger] call_requires(show, (addr,)),
    ensures
        exists|lines: Seq<String>| #[trigger]
            is_showing(show, addrs@, lines) && text@ == text_of(strings_view(lines)),
        forall|f: spec_fn(SocketAddr) -> Seq<char>| #[trigger]
            shows_as(show, f) ==> text@ == text_of(addrs@.map_values(f)),
{
    let mut lines: Vec<String> = Vec::new();
    let mut i: usize = 0;
    while i < addrs.len()
        invariant
            i <= addrs@.len(),
            lines@.len() == i,
            forall|addr: &SocketAddr| #[trigger] call_requires(show, (addr,)),
            forall|j: int|
                0 <= j < i ==> call_ensures(show, (&addrs@[j],), #[trigger] lines@[j]),
        decreases addrs@.len() - i,
    {
        lines.push(show(&addrs[i]));
        i += 1;
    }
    let text = cache_text(&lines);
    proof {
        assert(is_showing(show, addrs@, lines@));
        assert forall|f: spec_fn(SocketAddr) -> Seq<char>| #[trigger]
            shows_as(show, f) implies text@ == text_of(addrs@.map_values(f)) by {
            assert forall|j: int| 0 <= j < lines@.len() implies strings_view(lines@)[j] == f(
                addrs@[j],
            ) by {
                assert(call_ensures(show, (&addrs@[j],), lines@[j]));
            }
            assert(strings_view(lines@) =~= addrs@.map_values(f));
        }
    }
    text
}

/// A line that can be told apart in a text: it holds no newline and does not end with a carriage
/// return.
pub open spec fn is_line(line: Seq<char>) -> bool {
    &&& !line.contains('\n')
    &&& line.len() > 0 ==> line.last() != '\r'
}

/// The lines of the text that consists of some lines are these lines.
pub proof fn law_lines_of_text(lines: Seq<Seq<char>>)
    requires
        forall|i: int| 0 <= i < lines.len() ==> is_line(#[trigger] lines[i]),
    ensures
        lines_of(text_of(lines)) == lines,
    decreases lines.len(),
{
    if lines.len() > 0 {
        let line = lines[0];
        let rest = lines.skip(1);
        let text = text_of(lines);
        assert forall|i: int| 0 <= i < rest.len() implies is_line(#[trigger] rest[i]) by {
            assert(rest[i] == lines[i + 1]);
        }
        law_lines_of_text(rest);
        assert forall|j: int| 0 <= j < line.len() implies text[j] != '\n' by {
            assert(text[j] == line[j]);
            assert(is_line(line));
            assert(line.contains(line[j]));
        }
        lemma_line_end(text, line.len() as int);
        assert(is_line(lines[0]));
        assert(text.take(line.len() as int) =~= line);
        assert(text.skip(line.len() as int + 1) =~= text_of(rest));
        assert(lines_of(text) =~= seq![line] + rest);
        assert(seq![line] + rest =~= lines);
    } else {
        assert(lines_of(text_of(lines)) =~= lines);
    }
}

} // verus!
