//! What the smaller parts of the CAT port do: the head of a reply, the values in
//! its body, the scale of a meter and the order of the ports.
use crate::cat::handle;
use crate::cat::http;
use crate::cat::ports;
use crate::cat::power;
use crate::cat::xml;
use crate::cat::xml::NodeView;
use crate::text;
use vstd::prelude::*;

verus! {

broadcast use vstd::seq::group_seq_axioms;

/// A line ends at its line feed, with the carriage return in front of it where
/// there is one; the last one ends where the text does.
pub proof fn law_a_head_is_its_lines(line: Seq<char>, rest: Seq<char>)
    requires
        forall|i: int| 0 <= i < line.len() ==> #[trigger] line[i] != '\n' && line[i] != '\r',
    ensures
        http::lines_of(line.push('\r').push('\n') + rest) == seq![line] + http::lines_of(rest),
        http::lines_of(line.push('\n') + rest) == seq![line] + http::lines_of(rest),
        line.len() > 0 ==> http::lines_of(line) == seq![line],
        http::lines_of(Seq::empty()).len() == 0,
{
    let a = line.push('\r').push('\n') + rest;
    let n = line.len() as int;
    assert forall|j: int| 0 <= j < n + 1 implies a[j] != '\n' by {
        if j < n {
            assert(a[j] == line[j]);
        }
    }
    assert(a[n + 1] == '\n');
    text::lemma_find_from(a, '\n', 0, n + 1);
    assert(a.take(n + 1) =~= line.push('\r'));
    assert(line.push('\r').drop_last() =~= line);
    assert(a.skip(n + 2) =~= rest);
    let b = line.push('\n') + rest;
    assert forall|j: int| 0 <= j < n implies b[j] != '\n' by {
        assert(b[j] == line[j]);
    }
    assert(b[n] == '\n');
    text::lemma_find_from(b, '\n', 0, n);
    assert(b.take(n) =~= line);
    if n > 0 {
        assert(line.last() != '\r');
    }
    assert(b.skip(n + 1) =~= rest);
    text::lemma_find_from(line, '\n', 0, n);
}

proof fn lemma_white_from(s: Seq<char>, from: int, k: int)
    requires
        0 <= from <= k <= s.len(),
        forall|j: int| from <= j < k ==> !text::is_white(#[trigger] s[j]),
        k < s.len() ==> text::is_white(s[k]),
    ensures
        http::white_from(s, from) == k,
    decreases k - from,
{
    if from < k {
        assert(!text::is_white(s[from]));
        lemma_white_from(s, from + 1, k);
    }
}

/// The second word of a line is what stands between the white space behind the
/// first and the next.
pub proof fn law_the_second_word(first: Seq<char>, gap: char, word: Seq<char>, rest: Seq<char>)
    requires
        first.len() > 0,
        forall|i: int| 0 <= i < first.len() ==> !text::is_white(#[trigger] first[i]),
        text::is_white(gap),
        word.len() > 0,
        forall|i: int| 0 <= i < word.len() ==> !text::is_white(#[trigger] word[i]),
        rest.len() > 0 ==> text::is_white(rest[0]),
    ensures
        http::second_word_of(first.push(gap) + word + rest) == Some(word),
{
    let s = first.push(gap) + word + rest;
    let n = first.len() as int;
    assert(s[0] == first[0]);
    assert(!text::is_white(first[0]));
    assert(text::trim_front(s) == s);
    assert forall|j: int| 0 <= j < n implies !text::is_white(#[trigger] s[j]) by {
        assert(s[j] == first[j]);
    }
    assert(s[n] == gap);
    lemma_white_from(s, 0, n);
    let t = s.skip(n);
    assert(t[0] == gap);
    let b = t.drop_first();
    assert(b =~= word + rest);
    assert(b[0] == word[0]);
    assert(!text::is_white(word[0]));
    assert(text::trim_front(b) == b);
    assert(text::trim_front(t) == b);
    assert forall|j: int| 0 <= j < word.len() implies !text::is_white(#[trigger] b[j]) by {
        assert(b[j] == word[j]);
    }
    if rest.len() > 0 {
        assert(b[word.len() as int] == rest[0]);
    }
    lemma_white_from(b, 0, word.len() as int);
    assert(b.take(word.len() as int) =~= word);
}

/// Of several lengths the last one counts, and the first line, which is the status,
/// has none.
pub proof fn law_the_last_length_counts(lines: Seq<Seq<char>>, n: int)
    ensures
        n <= 1 ==> http::length_of(lines, n) is None,
        n > 1 && http::is_header(lines[n - 1], "content-length"@) ==> http::length_of(lines, n)
            == http::header_length(lines[n - 1]),
        n > 1 && !http::is_header(lines[n - 1], "content-length"@) ==> http::length_of(lines, n)
            == http::length_of(lines, n - 1),
{
}

/// A header goes by the name in front of its first colon, in any case and with any
/// space around it, and its length is the number behind that.
pub proof fn law_a_header_is_its_name(name: Seq<char>, value: Seq<char>, wanted: Seq<char>)
    requires
        forall|i: int| 0 <= i < name.len() ==> #[trigger] name[i] != ':',
    ensures
        http::is_header(name.push(':') + value, wanted) == (text::uppers(text::trim(name))
            == text::uppers(wanted)),
        !http::is_header(name, wanted),
        http::header_length(name.push(':') + value) == (match crate::decimal::uint_of(
            text::trim(value),
        ) {
            Some(n) => if n <= usize::MAX {
                Some(n)
            } else {
                None
            },
            None => None,
        }),
{
    let s = name.push(':') + value;
    let n = name.len() as int;
    assert forall|j: int| 0 <= j < n implies s[j] != ':' by {
        assert(s[j] == name[j]);
    }
    assert(s[n] == ':');
    text::lemma_find_from(s, ':', 0, n);
    text::lemma_find_from(name, ':', 0, n);
    assert(s.take(n) =~= name);
    assert(s.skip(n + 1) =~= value);
}

/// A status is the number behind the protocol of the first line.
pub proof fn law_the_status_of_a_reply(lines: Seq<Seq<char>>)
    ensures
        lines.len() == 0 ==> http::status_of(lines) is None,
        lines.len() > 0 && !text::has_prefix(lines[0], "HTTP/"@) ==> http::status_of(lines) is None,
        lines.len() > 0 && text::has_prefix(lines[0], "HTTP/"@) && http::second_word_of(lines[0])
            is Some ==> {
            let n = crate::decimal::uint_of(http::second_word_of(lines[0])->0);
            &&& n is Some && n->0 <= 65_535 ==> http::status_of(lines) == n
            &&& n is None || n->0 > 65_535 ==> http::status_of(lines) is None
        },
{
}

/// An element is found where it first stands.
pub proof fn law_the_first_element_is_found(s: Seq<NodeView>, name: Seq<char>, from: int, i: int)
    requires
        0 <= from,
    ensures
        xml::first_tag(s, name, from) == Some(i) <==> {
            &&& from <= i < s.len()
            &&& s[i].1 && s[i].2 == name
            &&& forall|j: int| from <= j < i ==> !((#[trigger] s[j]).1 && s[j].2 == name)
        },
    decreases s.len() - from,
{
    if from < s.len() && !(s[from].1 && s[from].2 == name) {
        law_the_first_element_is_found(s, name, from + 1, i);
    }
}

/// So is the first that stands directly in another.
pub proof fn law_the_first_inside_is_found(s: Seq<NodeView>, p: int, from: int, i: int)
    requires
        0 <= from,
    ensures
        xml::first_element_in(s, p, from) == Some(i) <==> {
            &&& from <= i < s.len()
            &&& s[i].1 && s[i].0 is Some && s[i].0->0 == p
            &&& forall|j: int|
                from <= j < i ==> !((#[trigger] s[j]).1 && s[j].0 is Some && s[j].0->0 == p)
        },
    decreases s.len() - from,
{
    if from < s.len() && !(s[from].1 && s[from].0 is Some && s[from].0->0 == p) {
        law_the_first_inside_is_found(s, p, from + 1, i);
    }
}

/// The value of a reply is that of its first `value`: the text of the typed element
/// in it, or its own where it has none, without the space around it.
pub proof fn law_the_value_of_a_reply(s: Seq<NodeView>, v: int, t: int, x: Seq<char>)
    requires
        xml::first_tag(s, "value"@, 0) == Some(v),
    ensures
        xml::first_element_in(s, v, 0) == Some(t) && s[t].3 == Some(x) ==> xml::scalar_of(s)
            == Some(text::trim(x)),
        xml::first_element_in(s, v, 0) is None && s[v].3 == Some(x) ==> xml::scalar_of(s) == Some(
            text::trim(x),
        ),
        xml::first_element_in(s, v, 0) == Some(t) && s[t].3 is None ==> xml::scalar_of(s) == Some(
            text::trim(Seq::empty()),
        ),
{
}

/// A meter reads its own points, straight lines between them, and its ends beyond
/// them.
pub proof fn law_a_meter_is_straight_between_its_points(
    cal: Seq<(i64, i64)>,
    x: int,
    i: int,
    from: int,
)
    requires
        power::rising(cal),
        0 <= from <= i,
        i + 1 < cal.len(),
        cal[i].0 < x <= cal[i + 1].0,
    ensures
        ({
            let r = power::interpolated(cal, x, from);
            let run = cal[i + 1].0 - cal[i].0;
            let way = (cal[i + 1].1 - cal[i].1) * (x - cal[i].0);
            &&& (r - cal[i].1) * run <= way < (r - cal[i].1 + 1) * run
            &&& x == cal[i + 1].0 ==> r == cal[i + 1].1
        }),
    decreases i - from,
{
    if from < i {
        assert(cal[from + 1].0 <= cal[i].0) by {
            if from + 1 < i {
                assert(cal[from + 1].0 < cal[i].0);
            }
        }
        law_a_meter_is_straight_between_its_points(cal, x, i, from + 1);
    } else {
        let run = cal[i + 1].0 - cal[i].0;
        let rise = cal[i + 1].1 - cal[i].1;
        let way = rise * (x - cal[i].0);
        assert(run > 0);
        assert((way / run) * run <= way < (way / run + 1) * run) by (nonlinear_arith)
            requires
                run > 0,
        ;
        if x == cal[i + 1].0 {
            assert(way / run == rise) by (nonlinear_arith)
                requires
                    run > 0,
                    way == rise * run,
            ;
        }
    }
}

/// Past its last point a meter stays there.
pub proof fn law_a_meter_stays_at_its_end(cal: Seq<(i64, i64)>, x: int, from: int)
    requires
        power::rising(cal),
        0 <= from,
        x > cal.last().0,
    ensures
        power::interpolated(cal, x, from) == cal.last().1,
    decreases cal.len() - from,
{
    if from + 1 < cal.len() {
        assert(cal[from + 1].0 <= cal.last().0) by {
            if from + 1 < cal.len() - 1 {
                assert(cal[from + 1].0 < cal[cal.len() - 1].0);
            }
        }
        law_a_meter_stays_at_its_end(cal, x, from + 1);
    }
}

/// A level is commanded in whole watts of a hundred, the nearest, and five at least,
/// as three digits.
pub proof fn law_a_level_in_three_digits(level: int)
    ensures
        5 <= power::pc_watts(level) <= 100,
        level >= 1_000_000 ==> power::pc_watts(level) == 100,
        45_000 <= level <= 1_000_000 ==> -5000 < 10_000 * power::pc_watts(level) - level <= 5000,
        level < 45_000 ==> power::pc_watts(level) == 5,
        ({
            let d = power::three_digits(power::pc_watts(level));
            &&& d.len() == 3
            &&& 48 <= d[0] <= 57 && 48 <= d[1] <= 57 && 48 <= d[2] <= 57
            &&& 100 * (d[0] - 48) + 10 * (d[1] - 48) + (d[2] - 48) == power::pc_watts(level)
        }),
{
}

/// Ports of a plugged-in cable come first and those of the board last; among
/// equals the one whose first different letter is smaller comes first, and a name
/// before what it begins.
pub proof fn law_the_order_of_the_ports(a: Seq<char>, b: Seq<char>, k: int)
    requires
        0 <= k <= a.len(),
        k <= b.len(),
        a.take(k) == b.take(k),
    ensures
        k < a.len() && k < b.len() && a[k] != b[k] ==> ports::not_behind(a, b) == (a[k] < b[k]),
        k == a.len() ==> ports::not_behind(a, b),
        k == b.len() && k < a.len() ==> !ports::not_behind(a, b),
    decreases k,
{
    if k > 0 {
        assert(a.take(k)[0] == a[0] && b.take(k)[0] == b[0]);
        assert(a[0] == b[0]);
        assert(a.skip(1).take(k - 1) =~= a.take(k).skip(1));
        assert(b.skip(1).take(k - 1) =~= b.take(k).skip(1));
        law_the_order_of_the_ports(a.skip(1), b.skip(1), k - 1);
    }
}

/// Which ports are those of a cable, and which of the board.
pub proof fn law_the_kinds_of_ports(port: Seq<char>)
    ensures
        text::find_seq(port, "ttyACM"@, 0) is Some || text::find_seq(port, "ttyUSB"@, 0) is Some
            <==> ports::rank_of(port) == 0,
        ports::rank_of(port) == 2 <==> text::find_seq(port, "ttyACM"@, 0) is None
            && text::find_seq(port, "ttyUSB"@, 0) is None && text::find_seq(port, "ttyS"@, 0)
            is Some,
        0 <= ports::rank_of(port) <= 2,
{
}

/// A node is inside another where it is that node, or its parent is inside.
pub proof fn law_what_is_inside(s: Seq<NodeView>, i: int, d: int)
    requires
        0 < i < s.len(),
        i != d,
    ensures
        xml::inside(s, i, i),
        s[i].0 is None ==> !xml::inside(s, i, d),
        s[i].0 is Some && s[i].0->0 < i ==> xml::inside(s, i, d) == xml::inside(
            s,
            s[i].0->0 as int,
            d,
        ),
{
}

/// The strings of a list are the values inside its data, in their order, those that
/// are empty left out.
pub proof fn law_the_strings_of_a_list(s: Seq<NodeView>, d: int, n: int)
    requires
        0 <= n,
    ensures
        xml::strings_in(s, d, 0).len() == 0,
        s[n].1 && s[n].2 == "value"@ && xml::inside(s, n, d) && xml::value_text(s, n).len() > 0
            ==> xml::strings_in(s, d, n + 1) == xml::strings_in(s, d, n).push(
            xml::value_text(s, n),
        ),
        !(s[n].1 && s[n].2 == "value"@) || !xml::inside(s, n, d) || xml::value_text(s, n).len() == 0
            ==> xml::strings_in(s, d, n + 1) == xml::strings_in(s, d, n),
        xml::strings_of(s, 0).len() == 0,
        s[n].1 && s[n].2 == "data"@ ==> xml::strings_of(s, n + 1) == xml::strings_of(s, n)
            + xml::strings_in(s, n, s.len() as int),
        !(s[n].1 && s[n].2 == "data"@) ==> xml::strings_of(s, n + 1) == xml::strings_of(s, n),
        xml::MAX_NESTING == 100,
{
}

/// Elements are counted where they open, and a text of characters, comments and
/// instructions opens none.
pub proof fn law_how_deep_a_text_is(s: Seq<char>, i: int, open: int)
    requires
        0 <= i < s.len(),
    ensures
        xml::deepest(s, s.len() as int, open) == open,
        s[i] != '<' ==> xml::deepest(s, i, open) == xml::deepest(s, i + 1, open),
        s[i] == '<' && xml::veil_end(s, i) is Some && i < xml::veil_end(s, i)->0 <= s.len()
            ==> xml::deepest(s, i, open) == xml::deepest(s, xml::veil_end(s, i)->0, open),
        s[i] == '<' && xml::veil_end(s, i) is None && !xml::goes_on(s, i, "</"@) ==> xml::deepest(
            s,
            i,
            open,
        ) == xml::deepest(s, i + 1, open + 1),
        s[i] == '<' && xml::veil_end(s, i) is None && xml::goes_on(s, i, "</"@) && open > 0 ==> {
            let rest = xml::deepest(s, i + 1, open - 1);
            &&& xml::deepest(s, i, open) >= open
            &&& xml::deepest(s, i, open) >= rest
            &&& xml::deepest(s, i, open) == open || xml::deepest(s, i, open) == rest
        },
        xml::nesting(s) == xml::deepest(s, 0, 0),
{
}

/// A text that is nested deeper than a hundred is not read.
pub proof fn law_a_deep_text_is_not_read(s: Seq<char>)
    ensures
        xml::nesting(s) > 100 ==> xml::nodes_of(s) is None,
{
}

/// Ports that are in order stand each before those behind it.
pub proof fn law_ports_in_order(v: Seq<Seq<char>>, i: int, j: int)
    requires
        ports::in_order(v),
        0 <= i < j < v.len(),
    ensures
        ports::rank_of(v[i]) <= ports::rank_of(v[j]),
        ports::rank_of(v[i]) == ports::rank_of(v[j]) ==> ports::not_behind(v[i], v[j]),
{
    assert(ports::before(v[i], v[j]));
}

/// An antenna is known by the first of its names.
pub proof fn law_an_antenna_by_its_first_name(names: Seq<Seq<char>>, name: Seq<char>, i: int)
    ensures
        handle::first_at(names, name, i) <==> 0 <= i < names.len() && names[i] == name && (forall|
            j: int,
        |
            0 <= j < i ==> #[trigger] names[j] != name),
{
}

/// A comment, a section of characters and an instruction end behind the first mark
/// that ends their kind, and at the end of the text where there is none.
pub proof fn law_where_no_tag_is_a_tag(s: Seq<char>, i: int, pat: Seq<char>, k: int)
    ensures
        xml::goes_on(s, i, pat) <==> i + pat.len() <= s.len() && s.subrange(i, i + pat.len())
            == pat,
        text::find_seq(s, pat, i) == Some(k) ==> xml::behind(s, pat, i) == k + pat.len(),
        text::find_seq(s, pat, i) is None ==> xml::behind(s, pat, i) == s.len(),
        xml::goes_on(s, i, "<!--"@) ==> xml::veil_end(s, i) == Some(
            xml::behind(s, "-->"@, i + 4),
        ),
        !xml::goes_on(s, i, "<!--"@) && xml::goes_on(s, i, "<![CDATA["@) ==> xml::veil_end(s, i)
            == Some(xml::behind(s, "]]>"@, i + 9)),
        !xml::goes_on(s, i, "<!--"@) && !xml::goes_on(s, i, "<![CDATA["@) && xml::goes_on(
            s,
            i,
            "<?"@,
        ) ==> xml::veil_end(s, i) == Some(xml::behind(s, "?>"@, i + 2)),
        !xml::goes_on(s, i, "<!--"@) && !xml::goes_on(s, i, "<![CDATA["@) && !xml::goes_on(
            s,
            i,
            "<?"@,
        ) ==> xml::veil_end(s, i) is None,
{
}

} // verus!
