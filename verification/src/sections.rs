//! The text format of the pop-out editors: named sections, each under a header
//! line `--- NAME ---`.

use vstd::prelude::*;

use crate::text;

verus! {

/// The name in a header line; `None` for a line that is no header. White space
/// round the line does not count, and neither do dashes written twice.
pub open spec fn header_name(line: Seq<char>) -> Option<Seq<char>> {
    let t = text::trim(line);
    if "--- "@.is_prefix_of(t) && " ---"@.is_suffix_of(t) {
        Some(text::strip_backs(text::strip_fronts(t, "--- "@), " ---"@))
    } else {
        None
    }
}

/// Where a reader of a sheet stands after some of its lines: the sections that
/// are complete, the name of the one that is open, and the lines in that.
#[verifier::ext_equal]
pub struct Reading {
    pub done: Map<Seq<char>, Seq<char>>,
    pub open: Option<Seq<char>>,
    pub body: Seq<Seq<char>>,
}

/// Nothing read yet.
pub open spec fn unread() -> Reading {
    Reading { done: Map::empty(), open: None, body: Seq::empty() }
}

/// The sections once the open one is closed: its content is its lines without
/// the white space round them, and a later section replaces one of its name.
pub open spec fn closed(r: Reading) -> Map<Seq<char>, Seq<char>> {
    match r.open {
        Some(name) => r.done.insert(name, text::trim(text::join(r.body, '\n'))),
        None => r.done,
    }
}

/// One line further. What stands above the first header belongs to no section.
pub open spec fn read_line(r: Reading, line: Seq<char>) -> Reading {
    match header_name(line) {
        Some(name) => Reading { done: closed(r), open: Some(name), body: Seq::empty() },
        None => if r.open is Some {
            Reading { body: r.body.push(line), ..r }
        } else {
            r
        },
    }
}

/// All the lines further.
pub open spec fn read_lines(r: Reading, ls: Seq<Seq<char>>) -> Reading
    decreases ls.len(),
{
    if ls.len() == 0 {
        r
    } else {
        read_line(read_lines(r, ls.drop_last()), ls.last())
    }
}

/// The sections of a sheet, by name.
pub open spec fn sections(sheet: Seq<char>) -> Map<Seq<char>, Seq<char>> {
    closed(read_lines(unread(), text::lines(sheet)))
}

/// The content of a section of a sheet; nothing where it has no such section.
pub open spec fn section(sheet: Seq<char>, name: Seq<char>) -> Seq<char> {
    if sections(sheet).dom().contains(name) {
        sections(sheet)[name]
    } else {
        Seq::empty()
    }
}

/// Sections in the order in which they were read. Of two with one name the later
/// counts.
pub struct Sections {
    pub entries: Vec<(String, String)>,
}

/// What a list of sections holds, by name.
pub open spec fn entries_map(entries: Seq<(String, String)>) -> Map<Seq<char>, Seq<char>>
    decreases entries.len(),
{
    if entries.len() == 0 {
        Map::empty()
    } else {
        entries_map(entries.drop_last()).insert(entries.last().0@, entries.last().1@)
    }
}

impl View for Sections {
    type V = Map<Seq<char>, Seq<char>>;

    open spec fn view(&self) -> Map<Seq<char>, Seq<char>> {
        entries_map(self.entries@)
    }
}

impl Sections {
    /// The content of the section called `name`.
    pub fn get(&self, name: &str) -> (r: Option<&str>)
        ensures
            match r {
                Some(content) => self@.dom().contains(name@) && content@ == self@[name@],
                None => !self@.dom().contains(name@),
            },
    {
        let mut i: usize = self.entries.len();
        assert(self.entries@.take(i as int) =~= self.entries@);
        while i > 0
            invariant
                i <= self.entries.len(),
                self@.dom().contains(name@) == entries_map(
                    self.entries@.take(i as int),
                ).dom().contains(name@),
                self@[name@] == entries_map(self.entries@.take(i as int))[name@],
            decreases i,
        {
            proof {
                assert(self.entries@.take(i as int).drop_last() =~= self.entries@.take(i - 1));
                assert(self.entries@.take(i as int).last() == self.entries@[i - 1]);
            }
            i -= 1;
            if text::same(self.entries[i].0.as_str(), name) {
                return Some(self.entries[i].1.as_str());
            }
        }
        None
    }

    /// The content of the section called `name`, or nothing.
    pub fn content(&self, name: &str) -> (r: String)
        ensures
            r@ == if self@.dom().contains(name@) {
                self@[name@]
            } else {
                Seq::empty()
            },
    {
        match self.get(name) {
            Some(content) => content.to_owned(),
            None => String::new(),
        }
    }
}

/// The name in a header line.
pub fn header_of(line: &str) -> (r: Option<String>)
    ensures
        match (r, header_name(line@)) {
            (Some(s), Some(name)) => s@ == name,
            (None, None) => true,
            _ => false,
        },
{
    let t: String = text::trimmed(line);
    if text::starts_with(t.as_str(), "--- ") && text::ends_with(t.as_str(), " ---") {
        let front: String = text::without_fronts(t.as_str(), "--- ");
        Some(text::without_backs(front.as_str(), " ---"))
    } else {
        None
    }
}

/// Read a sheet into its sections.
pub fn parse_sections(input: &str) -> (r: Sections)
    ensures
        r@ == sections(input@),
{
    let ls: Vec<String> = text::lines_of(input);
    let mut entries: Vec<(String, String)> = Vec::new();
    let mut open: Option<String> = None;
    let mut body: Vec<String> = Vec::new();
    let mut i: usize = 0;
    let ghost all = text::lines(input@);
    assert(text::texts(body@) =~= Seq::empty());
    while i < ls.len()
        invariant
            i <= ls.len(),
            text::texts(ls@) == all,
            read_lines(unread(), all.take(i as int)).done == entries_map(entries@),
            read_lines(unread(), all.take(i as int)).open == match open {
                Some(name) => Some(name@),
                None => None,
            },
            read_lines(unread(), all.take(i as int)).body == text::texts(body@),
        decreases ls.len() - i,
    {
        let ghost before = read_lines(unread(), all.take(i as int));
        proof {
            assert(all.take(i + 1).drop_last() =~= all.take(i as int));
            assert(all.take(i + 1).last() == ls@[i as int]@);
        }
        match header_of(ls[i].as_str()) {
            Some(name) => {
                match open {
                    Some(previous) => {
                        let joined: String = text::join_lines(&body);
                        let content: String = text::trimmed(joined.as_str());
                        let ghost held = entries@;
                        entries.push((previous, content));
                        assert(entries@.drop_last() =~= held);
                    },
                    None => {},
                }
                open = Some(name);
                body = Vec::new();
                assert(text::texts(body@) =~= Seq::empty());
            },
            None => {
                match &open {
                    Some(_) => {
                        let line: String = ls[i].clone();
                        proof {
                            text::lemma_texts_push(body@, line);
                        }
                        body.push(line);
                    },
                    None => {},
                }
            },
        }
        i += 1;
    }
    assert(all.take(i as int) =~= all);
    match open {
        Some(name) => {
            let joined: String = text::join_lines(&body);
            let content: String = text::trimmed(joined.as_str());
            let ghost held = entries@;
            entries.push((name, content));
            assert(entries@.drop_last() =~= held);
        },
        None => {},
    }
    Sections { entries }
}

/// A header line.
pub open spec fn header(name: Seq<char>) -> Seq<char> {
    "--- "@ + name + " ---"@
}

/// One section as a sheet shows it.
pub open spec fn block(name: Seq<char>, content: Seq<char>) -> Seq<char> {
    header(name).push('\n') + content.push('\n')
}

/// A sheet with these sections, in this order.
pub open spec fn sheet(entries: Seq<(Seq<char>, Seq<char>)>) -> Seq<char>
    decreases entries.len(),
{
    if entries.len() == 0 {
        Seq::empty()
    } else {
        sheet(entries.drop_last()) + block(entries.last().0, entries.last().1)
    }
}

/// Write one more section at the end of a sheet.
pub fn add_section(out: &mut String, name: &str, content: &str)
    ensures
        final(out)@ == old(out)@ + block(name@, content@),
{
    proof {
        reveal_strlit(" ---\n");
        reveal_strlit(" ---");
        reveal_strlit("\n");
    }
    out.append("--- ");
    out.append(name);
    out.append(" ---\n");
    out.append(content);
    out.append("\n");
    assert(out@ =~= old(out)@ + block(name@, content@));
}

/// A name that a header line can carry as it is: letters and such, without white
/// space and without dashes.
pub open spec fn plain_name(name: Seq<char>) -> bool {
    name.len() > 0 && forall|i: int|
        0 <= i < name.len() ==> !text::is_white(#[trigger] name[i]) && name[i] != '-'
}

/// The lines of a content that stands on a sheet, without the carriage returns at
/// their ends.
pub open spec fn body_lines(content: Seq<char>) -> Seq<Seq<char>> {
    text::split_on(content, '\n').map_values(|line: Seq<char>| text::strip_cr(line))
}

/// What a section gives back of a content: its lines, without the white space
/// round them.
pub open spec fn came_back(content: Seq<char>) -> Seq<char> {
    text::trim(text::join(body_lines(content), '\n'))
}

/// Does no line of the content read as a header?
pub open spec fn headerless(content: Seq<char>) -> bool {
    forall|i: int|
        0 <= i < body_lines(content).len() ==> header_name(#[trigger] body_lines(content)[i])
            is None
}

/// A content that a section carries as it is.
pub open spec fn plain_content(content: Seq<char>) -> bool {
    headerless(content) && came_back(content) == content
}

/// What a sheet gives back of its sections.
pub open spec fn read_back(entries: Seq<(Seq<char>, Seq<char>)>) -> Seq<(Seq<char>, Seq<char>)> {
    entries.map_values(|e: (Seq<char>, Seq<char>)| (e.0, came_back(e.1)))
}

/// Where no line of a content ends in a carriage return, the content comes back
/// without the white space round it, and otherwise as it is.
pub proof fn trimmed_content_comes_back(content: Seq<char>)
    requires
        forall|i: int|
            0 <= i < text::split_on(content, '\n').len() ==> text::strip_cr(
                #[trigger] text::split_on(content, '\n')[i],
            ) == text::split_on(content, '\n')[i],
    ensures
        came_back(content) == text::trim(content),
{
    assert(body_lines(content) =~= text::split_on(content, '\n'));
    text::lemma_join_split_on(content, '\n');
}

/// The sections of a list, by name; of two with one name the later counts.
pub open spec fn by_name(entries: Seq<(Seq<char>, Seq<char>)>) -> Map<Seq<char>, Seq<char>>
    decreases entries.len(),
{
    if entries.len() == 0 {
        Map::empty()
    } else {
        by_name(entries.drop_last()).insert(entries.last().0, entries.last().1)
    }
}

proof fn lemma_header_name(name: Seq<char>)
    requires
        plain_name(name),
    ensures
        header_name(header(name)) == Some(name),
        !header(name).contains('\n'),
        text::strip_cr(header(name)) == header(name),
{
    reveal_strlit("--- ");
    reveal_strlit(" ---");
    let h = header(name);
    let front = "--- "@;
    let back = " ---"@;
    assert(front.len() == 4 && back.len() == 4);
    assert(h[0] == '-' && h.last() == '-');
    assert(text::trim(h) == h);
    assert(front.is_prefix_of(h)) by {
        assert(h.subrange(0, 4) =~= front);
    }
    assert(back.is_suffix_of(h)) by {
        assert(h.subrange(h.len() - 4, h.len() as int) =~= back);
    }
    let rest = name + back;
    assert(h.skip(4) =~= rest);
    assert(rest[0] == name[0] && name[0] != '-');
    assert(!front.is_prefix_of(rest)) by {
        if front.is_prefix_of(rest) {
            assert(rest.subrange(0, 4)[0] == front[0]);
        }
    }
    assert(text::strip_fronts(rest, front) == rest);
    assert(text::strip_fronts(h, front) == rest);
    assert(back.is_suffix_of(rest)) by {
        assert(rest.subrange(rest.len() - 4, rest.len() as int) =~= back);
    }
    assert(rest.take(rest.len() - 4) =~= name);
    assert(!back.is_suffix_of(name)) by {
        if back.is_suffix_of(name) {
            assert(name.subrange(name.len() - 4, name.len() as int)[3] == back[3]);
            assert(name[name.len() - 1] == '-');
        }
    }
    assert(text::strip_backs(name, back) == name);
    assert(text::strip_backs(rest, back) == name);
    assert forall|i: int| 0 <= i < h.len() implies h[i] != '\n' by {
        if i < 4 {
            assert(h[i] == front[i]);
        } else if i < 4 + name.len() {
            assert(h[i] == name[i - 4]);
            assert(!text::is_white(name[i - 4]));
        } else {
            assert(h[i] == back[i - 4 - name.len()]);
        }
    }
}

proof fn lemma_read_lines_concat(r: Reading, a: Seq<Seq<char>>, b: Seq<Seq<char>>)
    ensures
        read_lines(r, a + b) == read_lines(read_lines(r, a), b),
    decreases b.len(),
{
    if b.len() == 0 {
        assert(a + b =~= a);
    } else {
        assert((a + b).drop_last() =~= a + b.drop_last());
        assert((a + b).last() == b.last());
        lemma_read_lines_concat(r, a, b.drop_last());
    }
}

proof fn lemma_read_content(r: Reading, ls: Seq<Seq<char>>)
    requires
        r.open is Some,
        r.body.len() == 0,
        forall|i: int| 0 <= i < ls.len() ==> header_name(#[trigger] ls[i]) is None,
    ensures
        read_lines(r, ls) == (Reading { body: ls, ..r }),
    decreases ls.len(),
{
    if ls.len() == 0 {
        assert(r.body =~= ls);
    } else {
        assert forall|i: int| 0 <= i < ls.len() - 1 implies header_name(
            #[trigger] ls.drop_last()[i],
        ) is None by {
            assert(ls.drop_last()[i] == ls[i]);
        }
        lemma_read_content(r, ls.drop_last());
        assert(header_name(ls[ls.len() - 1]) is None);
        assert(ls.drop_last().push(ls.last()) =~= ls);
    }
}

/// The lines of a sheet before the empty piece behind its last newline.
spec fn ended(s: Seq<char>) -> Seq<Seq<char>> {
    text::split_on(s, '\n').drop_last()
}

proof fn lemma_ended_concat(a: Seq<char>, b: Seq<char>)
    requires
        a.len() == 0 || a.last() == '\n',
    ensures
        ended(a + b) == ended(a) + ended(b),
        text::split_on(a + b, '\n').last() == text::split_on(b, '\n').last(),
{
    text::lemma_split_on_nonempty(b, '\n');
    if a.len() == 0 {
        assert(a + b =~= b);
        assert(ended(a) =~= Seq::empty());
        assert(ended(a) + ended(b) =~= ended(b));
    } else {
        let x = a.drop_last();
        assert(a =~= x.push('\n'));
        text::lemma_split_on_concat(x, '\n', b);
        text::lemma_split_on_nonempty(x, '\n');
        let left = text::split_on(x, '\n');
        assert(text::split_on(a, '\n').drop_last() =~= left);
        assert((left + text::split_on(b, '\n')).drop_last() =~= left + ended(b));
    }
}

proof fn lemma_ended_line(x: Seq<char>)
    ensures
        ended(x.push('\n')) == text::split_on(x, '\n'),
        text::split_on(x.push('\n'), '\n').last().len() == 0,
{
    assert(x.push('\n').drop_last() =~= x);
    assert(ended(x.push('\n')) =~= text::split_on(x, '\n'));
}

proof fn lemma_block_lines(name: Seq<char>, content: Seq<char>)
    requires
        plain_name(name),
    ensures
        ended(block(name, content)) == seq![header(name)] + text::split_on(content, '\n'),
        text::split_on(block(name, content), '\n').last().len() == 0,
{
    lemma_header_name(name);
    let h = header(name).push('\n');
    lemma_ended_concat(h, content.push('\n'));
    lemma_ended_line(header(name));
    lemma_ended_line(content);
    text::lemma_split_on_absent(header(name), '\n');
}

proof fn lemma_sheet_ends(entries: Seq<(Seq<char>, Seq<char>)>)
    ensures
        sheet(entries).len() == 0 || sheet(entries).last() == '\n',
        entries.len() == 0 <==> sheet(entries).len() == 0,
{
    if entries.len() > 0 {
        let b = block(entries.last().0, entries.last().1);
        assert(b.last() == '\n');
        assert(sheet(entries).last() == b.last());
    }
}

/// What is written as a sheet is read back from it: every section under its own
/// name, with what comes back of its content.
pub proof fn sheet_is_read_back(entries: Seq<(Seq<char>, Seq<char>)>)
    requires
        forall|i: int|
            0 <= i < entries.len() ==> plain_name((#[trigger] entries[i]).0) && headerless(
                entries[i].1,
            ),
    ensures
        sections(sheet(entries)) == by_name(read_back(entries)),
{
    lemma_sheet_read(entries);
    lemma_sheet_ends(entries);
    let s = sheet(entries);
    let pieces = text::split_on(s, '\n');
    text::lemma_split_on_nonempty(s, '\n');
    assert(pieces.last().len() == 0);
    assert(text::lines(s) =~= stripped(ended(s)));
}

/// The lines without carriage returns at their ends.
spec fn stripped(ls: Seq<Seq<char>>) -> Seq<Seq<char>> {
    ls.map_values(|line: Seq<char>| text::strip_cr(line))
}

proof fn lemma_sheet_read(entries: Seq<(Seq<char>, Seq<char>)>)
    requires
        forall|i: int|
            0 <= i < entries.len() ==> plain_name((#[trigger] entries[i]).0) && headerless(
                entries[i].1,
            ),
    ensures
        text::split_on(sheet(entries), '\n').last().len() == 0,
        closed(read_lines(unread(), stripped(ended(sheet(entries))))) == by_name(
            read_back(entries),
        ),
    decreases entries.len(),
{
    if entries.len() == 0 {
        assert(stripped(ended(sheet(entries))) =~= Seq::empty());
        assert(read_back(entries) =~= Seq::empty());
    } else {
        let before = entries.drop_last();
        let (name, content) = entries.last();
        assert(plain_name(entries[entries.len() - 1].0));
        assert forall|i: int| 0 <= i < before.len() implies plain_name((#[trigger] before[i]).0)
            && headerless(before[i].1) by {
            assert(before[i] == entries[i]);
        }
        lemma_sheet_read(before);
        lemma_sheet_ends(before);
        let a = sheet(before);
        let b = block(name, content);
        lemma_ended_concat(a, b);
        lemma_block_lines(name, content);
        lemma_header_name(name);
        let body = body_lines(content);
        let front = stripped(ended(a));
        let one = seq![header(name)];
        assert(stripped(ended(a + b)) =~= front + (one + body));
        let r0 = read_lines(unread(), front);
        lemma_read_lines_concat(unread(), front, one + body);
        lemma_read_lines_concat(r0, one, body);
        assert(one.drop_last() =~= Seq::empty());
        assert(read_lines(r0, one.drop_last()) == r0);
        let r1 = read_lines(r0, one);
        assert(r1 == read_line(r0, header(name)));
        lemma_read_content(r1, body);
        assert(read_back(entries).drop_last() =~= read_back(before));
        assert(read_back(entries).last() == (name, came_back(content)));
    }
}

/// A section that no later one replaces is found under its name.
pub proof fn lemma_by_name_finds(entries: Seq<(Seq<char>, Seq<char>)>, i: int)
    requires
        0 <= i < entries.len(),
        forall|j: int| i < j < entries.len() ==> (#[trigger] entries[j]).0 != entries[i].0,
    ensures
        by_name(entries).dom().contains(entries[i].0),
        by_name(entries)[entries[i].0] == entries[i].1,
    decreases entries.len(),
{
    if i < entries.len() - 1 {
        assert(entries[entries.len() - 1].0 != entries[i].0);
        let before = entries.drop_last();
        assert forall|j: int| i < j < before.len() implies (#[trigger] before[j]).0
            != before[i].0 by {
            assert(before[j] == entries[j]);
        }
        lemma_by_name_finds(before, i);
    }
}

/// A single word that begins with no dash is a plain content.
pub proof fn lemma_word_is_plain(s: Seq<char>)
    requires
        forall|i: int| 0 <= i < s.len() ==> !text::is_white(#[trigger] s[i]),
        s.len() > 0 ==> s[0] != '-',
    ensures
        plain_content(s),
{
    reveal_strlit("--- ");
    assert(!s.contains('\n')) by {
        assert forall|i: int| 0 <= i < s.len() implies s[i] != '\n' by {
            assert(!text::is_white(s[i]));
        }
    }
    text::lemma_split_on_absent(s, '\n');
    text::lemma_join_split_on(s, '\n');
    assert(text::trim(s) == s) by {
        if s.len() > 0 {
            assert(!text::is_white(s[0]) && !text::is_white(s[s.len() - 1]));
        }
    }
    assert(header_name(s) is None) by {
        if "--- "@.is_prefix_of(s) {
            assert(s.subrange(0, 4)[0] == "--- "@[0]);
        }
    }
    assert(text::strip_cr(s) == s) by {
        if s.len() > 0 {
            assert(!text::is_white(s[s.len() - 1]));
        }
    }
    assert(body_lines(s) =~= text::split_on(s, '\n'));
}

/// A header is three dashes, a space, the name, a space and three dashes; white space
/// round the line makes no difference. A line that does not start or end so is none.
pub proof fn a_header_stands_between_dashes(
    a: Seq<char>,
    name: Seq<char>,
    b: Seq<char>,
    line: Seq<char>,
)
    requires
        text::all_white(a),
        text::all_white(b),
        plain_name(name),
    ensures
        header_name(a + ("--- "@ + name + " ---"@) + b) == Some(name),
        !("--- "@.is_prefix_of(text::trim(line))) ==> header_name(line) is None,
        !(" ---"@.is_suffix_of(text::trim(line))) ==> header_name(line) is None,
{
    reveal_strlit("--- ");
    reveal_strlit(" ---");
    let h = header(name);
    lemma_header_name(name);
    assert("--- "@.len() == 4 && " ---"@.len() == 4);
    assert(h[0] == '-' && h[h.len() - 1] == '-');
    text::trimming_takes_the_white_space_round_it(a, h, b);
    let none = Seq::<char>::empty();
    text::trimming_takes_the_white_space_round_it(none, h, none);
    assert(none + h + none =~= h);
}

/// A section is what stands between its header and the next, without the white space round
/// it, and it takes the place of an earlier one of its name; the other sections are as they
/// were.
pub proof fn a_section_is_what_stands_below_its_header(
    above: Seq<Seq<char>>,
    name: Seq<char>,
    body: Seq<Seq<char>>,
)
    requires
        plain_name(name),
        forall|i: int| 0 <= i < body.len() ==> header_name(#[trigger] body[i]) is None,
    ensures
        closed(read_lines(unread(), above + seq!["--- "@ + name + " ---"@] + body)) == closed(
            read_lines(unread(), above),
        ).insert(name, text::trim(text::join(body, '\n'))),
{
    let line = header(name);
    lemma_header_name(name);
    let r = read_lines(unread(), above);
    let opened = above + seq![line];
    assert(opened.drop_last() =~= above);
    assert(opened.last() == line);
    lemma_read_lines_concat(unread(), opened, body);
    lemma_read_content(read_lines(unread(), opened), body);
}

/// What stands above the first header belongs to no section.
pub proof fn nothing_is_above_the_first_header(above: Seq<Seq<char>>)
    requires
        forall|i: int| 0 <= i < above.len() ==> header_name(#[trigger] above[i]) is None,
    ensures
        closed(read_lines(unread(), above)) == Map::<Seq<char>, Seq<char>>::empty(),
{
    lemma_nothing_is_open(above);
}

proof fn lemma_nothing_is_open(above: Seq<Seq<char>>)
    requires
        forall|i: int| 0 <= i < above.len() ==> header_name(#[trigger] above[i]) is None,
    ensures
        read_lines(unread(), above) == unread(),
    decreases above.len(),
{
    if above.len() > 0 {
        let before = above.drop_last();
        assert forall|i: int| 0 <= i < before.len() implies header_name(#[trigger] before[i])
            is None by {
            assert(before[i] == above[i]);
        }
        lemma_nothing_is_open(before);
        assert(header_name(above[above.len() - 1]) is None);
    }
}

/// A section that a sheet has is what it holds, and one that it has not is empty.
pub proof fn a_missing_section_is_empty(text: Seq<char>, name: Seq<char>)
    ensures
        sections(text).dom().contains(name) ==> section(text, name) == sections(text)[name],
        !sections(text).dom().contains(name) ==> section(text, name).len() == 0,
{
}

} // verus!
