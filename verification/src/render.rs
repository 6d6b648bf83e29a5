//! The renderer.
//!
//! A record is rendered either plain or colorized; the mode is chosen once
//! per invocation and passed in, never read from the environment here.
//! Colorized output wraps the header, description and entry lines in fixed
//! ANSI escape sequences, each style reset after its segment; match
//! highlighting wraps every literal occurrence of the search term inside
//! the description in an emphasis style of its own.  An entry line marked
//! as a comment is rendered distinctly rather than as an entry: verbatim
//! in plain mode, in a dedicated style in colorized mode.  Both record
//! flavours of the crate render through this one module.

use crate::record::{filter_records, RecordView};
use crate::text::{
    contains_seq, join_seq, join_strings, lemma_replace_is_join, lemma_split_on_join,
    lemma_split_on_len, lemma_split_on_parts_free, occurrences, replace_seq, replace_str,
    split_on_seq,
};
use vstd::prelude::*;
use vstd::string::StrSliceExecFns;
use vstd::string::StringExecFns;

verus! {

/// How matched records are written: bare text, or wrapped in ANSI styles.
#[derive(Clone, Copy, Debug, PartialEq, Eq, Structural)]
pub enum RenderMode {
    Plain,
    Colorized,
}

/// `search` wrapped in the emphasis style used for match highlighting.
pub open spec fn emphasize_seq(search: Seq<char>) -> Seq<char> {
    "\u{1b}[91;1m"@ + search + "\u{1b}[0m"@
}

/// The description with every occurrence of a non-empty `search` term
/// emphasized; an empty term highlights nothing.
pub open spec fn highlighted_seq(desc: Seq<char>, search: Seq<char>, match_colored: bool) -> Seq<
    char,
> {
    if match_colored {
        replace_seq(desc, search, emphasize_seq(search))
    } else {
        desc
    }
}

/// The description with every occurrence of `search` emphasized.
pub fn emphasize_matches(desc: &str, search: &str) -> (r: String)
    ensures
        r@ == replace_seq(desc@, search@, emphasize_seq(search@)),
{
    let mut em = String::new();
    em.append("\u{1b}[91;1m");
    em.append(search);
    em.append("\u{1b}[0m");
    proof {
        assert(em@ =~= emphasize_seq(search@));
    }
    replace_str(desc, search, em.as_str())
}

/// Highlight correctness for a term found twice: the description splits
/// into three term-free segments around the two replaced occurrences, and
/// the highlighted description is exactly those segments with the
/// emphasized term at each of the two places — so the output carries
/// exactly two emphasis-wrapped occurrences of the term, and the rest of
/// the description is unchanged.
pub proof fn lemma_highlight_two_occurrences(desc: Seq<char>, term: Seq<char>)
    requires
        term.len() > 0,
        occurrences(desc, term) == 2,
    ensures
        ({
            let parts = split_on_seq(desc, term);
            let em = emphasize_seq(term);
            &&& parts.len() == 3
            &&& desc == parts[0] + term + parts[1] + term + parts[2]
            &&& highlighted_seq(desc, term, true) == parts[0] + em + parts[1] + em + parts[2]
            &&& forall|i: int| 0 <= i < 3 ==> !contains_seq(#[trigger] parts[i], term)
        }),
{
    let parts = split_on_seq(desc, term);
    let em = emphasize_seq(term);
    lemma_split_on_len(desc, term);
    lemma_split_on_join(desc, term);
    lemma_replace_is_join(desc, term, em);
    lemma_split_on_parts_free(desc, term);
    lemma_join_three(parts, term);
    lemma_join_three(parts, em);
}

/// The join of exactly three parts, written out.
proof fn lemma_join_three(parts: Seq<Seq<char>>, sep: Seq<char>)
    requires
        parts.len() == 3,
    ensures
        join_seq(parts, sep) == parts[0] + sep + parts[1] + sep + parts[2],
{
    let tail = parts.subrange(1, 3);
    assert(tail.len() == 2);
    assert(tail[0] == parts[1]);
    let tail2 = tail.subrange(1, 2);
    assert(tail2.len() == 1);
    assert(tail2[0] == parts[2]);
    assert(join_seq(tail2, sep) == parts[2]);
    assert(join_seq(tail, sep) == tail[0] + sep + join_seq(tail.subrange(1, 2), sep));
    assert(join_seq(parts, sep) == parts[0] + sep + join_seq(parts.subrange(1, 3), sep));
    assert(parts[0] + sep + (parts[1] + sep + parts[2]) =~= parts[0] + sep + parts[1] + sep
        + parts[2]);
}

/// The plain header line: `[topic][tag1 tag2] description`, the tag
/// bracket omitted when the record has no tags.
pub open spec fn plain_header_seq(topic: Seq<char>, tags: Seq<Seq<char>>, desc: Seq<char>) -> Seq<
    char,
> {
    if tags.len() > 0 {
        "["@ + topic + "]["@ + join_seq(tags, " "@) + "] "@ + desc
    } else {
        "["@ + topic + "] "@ + desc
    }
}

/// The colorized header line: topic and tag brackets, each in its own
/// style, reset after each styled segment; no description.
pub open spec fn colorized_header_seq(topic: Seq<char>, tags: Seq<Seq<char>>) -> Seq<char> {
    if tags.len() > 0 {
        "\u{1b}[93;1m["@ + topic + "]\u{1b}[0m"@ + "\u{1b}[94;1m["@ + join_seq(tags, " "@)
            + "]\u{1b}[0m"@
    } else {
        "\u{1b}[93;1m["@ + topic + "]\u{1b}[0m"@
    }
}

/// The colorized description line: a styled marker, then the description.
pub open spec fn colorized_desc_seq(desc: Seq<char>) -> Seq<char> {
    "\u{1b}[92;1m#\u{1b}[0m "@ + desc
}

/// The plain header line for one record.
pub fn plain_header(topic: &str, tags: &Vec<String>, desc: &str) -> (line: String)
    ensures
        line@ == plain_header_seq(topic@, tags.deep_view(), desc@),
{
    let mut line = String::new();
    line.append("[");
    line.append(topic);
    if tags.len() > 0 {
        line.append("][");
        let joined = join_strings(tags, " ");
        line.append(joined.as_str());
    }
    line.append("] ");
    line.append(desc);
    proof {
        assert(line@ =~= plain_header_seq(topic@, tags.deep_view(), desc@));
    }
    line
}

/// The colorized header line for one record.
pub fn colorized_header(topic: &str, tags: &Vec<String>) -> (line: String)
    ensures
        line@ == colorized_header_seq(topic@, tags.deep_view()),
{
    let mut line = String::new();
    line.append("\u{1b}[93;1m[");
    line.append(topic);
    line.append("]\u{1b}[0m");
    if tags.len() > 0 {
        line.append("\u{1b}[94;1m[");
        let joined = join_strings(tags, " ");
        line.append(joined.as_str());
        line.append("]\u{1b}[0m");
    }
    proof {
        assert(line@ =~= colorized_header_seq(topic@, tags.deep_view()));
    }
    line
}

/// The colorized description line.
pub fn colorized_desc(desc: &str) -> (line: String)
    ensures
        line@ == colorized_desc_seq(desc@),
{
    let mut line = String::new();
    line.append("\u{1b}[92;1m#\u{1b}[0m ");
    line.append(desc);
    proof {
        assert(line@ =~= colorized_desc_seq(desc@));
    }
    line
}

/// Whether an entry line is a comment, recognized by its leading marker.
pub open spec fn is_comment_seq(line: Seq<char>) -> bool {
    line.len() >= 2 && line[0] == '/' && line[1] == '/'
}

/// A plain entry line: prefixed with `- `, except comments, which are
/// written verbatim.
pub open spec fn plain_entry_seq(line: Seq<char>) -> Seq<char> {
    if is_comment_seq(line) {
        line
    } else {
        "- "@ + line
    }
}

/// A colorized entry line: a styled marker and the styled line, comments
/// in a dedicated style of their own.
pub open spec fn colorized_entry_seq(line: Seq<char>) -> Seq<char> {
    if is_comment_seq(line) {
        "\u{1b}[90;1m"@ + line + "\u{1b}[0m"@
    } else {
        "\u{1b}[92;1m>>>\u{1b}[0m \u{1b}[95m"@ + line + "\u{1b}[0m"@
    }
}

/// The rendered entry lines of one record, in entry order.
pub open spec fn entry_lines_seq(data: Seq<Seq<char>>, mode: RenderMode) -> Seq<Seq<char>> {
    match mode {
        RenderMode::Plain => data.map_values(|d: Seq<char>| plain_entry_seq(d)),
        RenderMode::Colorized => data.map_values(|d: Seq<char>| colorized_entry_seq(d)),
    }
}

/// Whether the line carries the comment marker.
fn is_comment_line(line: &str) -> (b: bool)
    ensures
        b == is_comment_seq(line@),
{
    line.unicode_len() >= 2 && line.get_char(0) == '/' && line.get_char(1) == '/'
}

/// One rendered entry line.
pub fn entry_line(line: &str, mode: RenderMode) -> (r: String)
    ensures
        r@ == match mode {
            RenderMode::Plain => plain_entry_seq(line@),
            RenderMode::Colorized => colorized_entry_seq(line@),
        },
{
    let comment = is_comment_line(line);
    let mut r = String::new();
    match mode {
        RenderMode::Plain => {
            if comment {
                r.append(line);
            } else {
                r.append("- ");
                r.append(line);
            }
        },
        RenderMode::Colorized => {
            if comment {
                r.append("\u{1b}[90;1m");
                r.append(line);
                r.append("\u{1b}[0m");
            } else {
                r.append("\u{1b}[92;1m>>>\u{1b}[0m \u{1b}[95m");
                r.append(line);
                r.append("\u{1b}[0m");
            }
        },
    }
    proof {
        assert(r@ =~= match mode {
            RenderMode::Plain => plain_entry_seq(line@),
            RenderMode::Colorized => colorized_entry_seq(line@),
        });
    }
    r
}

/// All lines a record is rendered as: a separating empty line, the header
/// (plain mode carries the description inline; colorized mode gives it a
/// styled line of its own), then one line per entry, in entry order.
pub open spec fn record_lines(
    mode: RenderMode,
    topic: Seq<char>,
    r: RecordView,
    search: Seq<char>,
    match_colored: bool,
) -> Seq<Seq<char>> {
    let desc = highlighted_seq(r.description, search, match_colored);
    match mode {
        RenderMode::Plain => seq![Seq::<char>::empty(), plain_header_seq(topic, r.tags, desc)]
            + entry_lines_seq(r.data, mode),
        RenderMode::Colorized => seq![
            Seq::<char>::empty(),
            colorized_header_seq(topic, r.tags),
            colorized_desc_seq(desc),
        ] + entry_lines_seq(r.data, mode),
    }
}

/// All lines rendered for a topic's matching records, in record order.
pub open spec fn topic_lines(
    mode: RenderMode,
    topic: Seq<char>,
    rs: Seq<RecordView>,
    search: Seq<char>,
    match_colored: bool,
) -> Seq<Seq<char>>
    decreases rs.len(),
{
    if rs.len() == 0 {
        Seq::empty()
    } else {
        record_lines(mode, topic, rs[0], search, match_colored) + topic_lines(
            mode,
            topic,
            rs.drop_first(),
            search,
            match_colored,
        )
    }
}

/// Rendering one more record appends exactly its lines.
pub proof fn lemma_topic_lines_push(
    mode: RenderMode,
    topic: Seq<char>,
    rs: Seq<RecordView>,
    search: Seq<char>,
    match_colored: bool,
    r: RecordView,
)
    ensures
        topic_lines(mode, topic, rs.push(r), search, match_colored) == topic_lines(
            mode,
            topic,
            rs,
            search,
            match_colored,
        ) + record_lines(mode, topic, r, search, match_colored),
    decreases rs.len(),
{
    if rs.len() == 0 {
        assert(rs.push(r)[0] == r);
        assert(rs.push(r).drop_first() =~= Seq::<RecordView>::empty());
        assert(topic_lines(mode, topic, rs.push(r).drop_first(), search, match_colored)
            == Seq::<Seq<char>>::empty());
        assert(record_lines(mode, topic, r, search, match_colored) + Seq::<Seq<char>>::empty()
            =~~= Seq::<Seq<char>>::empty() + record_lines(mode, topic, r, search, match_colored));
    } else {
        assert(rs.push(r)[0] == rs[0]);
        assert(rs.push(r).drop_first() =~= rs.drop_first().push(r));
        lemma_topic_lines_push(mode, topic, rs.drop_first(), search, match_colored, r);
        assert(record_lines(mode, topic, rs[0], search, match_colored) + (topic_lines(
            mode,
            topic,
            rs.drop_first(),
            search,
            match_colored,
        ) + record_lines(mode, topic, r, search, match_colored)) =~~= (record_lines(
            mode,
            topic,
            rs[0],
            search,
            match_colored,
        ) + topic_lines(mode, topic, rs.drop_first(), search, match_colored)) + record_lines(
            mode,
            topic,
            r,
            search,
            match_colored,
        ));
    }
}

/// The block of lines a record is rendered as in plain mode with no
/// search term and no highlighting.
pub open spec fn plain_block(topic: Seq<char>, r: RecordView) -> Seq<Seq<char>> {
    record_lines(RenderMode::Plain, topic, r, Seq::empty(), false)
}

/// A line ends with `text`, written verbatim.
pub open spec fn line_carries(line: Seq<char>, text: Seq<char>) -> bool {
    line.len() >= text.len() && line.subrange(line.len() - text.len(), line.len() as int) == text
}

/// The plain block of a record reproduces it: one leading empty line, one
/// header line ending with the description verbatim, then exactly one
/// line per entry, in entry order, each carrying its entry verbatim.
pub open spec fn plain_block_reproduces(topic: Seq<char>, r: RecordView) -> bool {
    let block = plain_block(topic, r);
    &&& block.len() == 2 + r.data.len()
    &&& block[0] == Seq::<char>::empty()
    &&& line_carries(block[1], r.description)
    &&& forall|j: int| 0 <= j < r.data.len() ==> line_carries(#[trigger] block[2 + j], r.data[j])
}

/// Round trip from loaded records to plain text: filtering with no
/// criteria keeps every record, rendering keeps the records' order, and
/// every record's description and every entry line reappear verbatim,
/// each on its own line of the record's block.
pub proof fn lemma_plain_round_trip(topic: Seq<char>, rs: Seq<RecordView>)
    ensures
        filter_records(rs, Seq::empty(), Seq::empty()) == rs,
        rs.len() > 0 ==> topic_lines(RenderMode::Plain, topic, rs, Seq::empty(), false)
            == plain_block(topic, rs[0]) + topic_lines(
            RenderMode::Plain,
            topic,
            rs.drop_first(),
            Seq::empty(),
            false,
        ),
        forall|i: int| 0 <= i < rs.len() ==> plain_block_reproduces(topic, #[trigger] rs[i]),
{
    crate::record::lemma_filter_records_no_criteria(rs);
    assert forall|i: int| 0 <= i < rs.len() implies plain_block_reproduces(topic, rs[i]) by {
        lemma_plain_block_reproduces(topic, rs[i]);
    }
}

proof fn lemma_plain_block_reproduces(topic: Seq<char>, r: RecordView)
    ensures
        plain_block_reproduces(topic, r),
{
    let block = plain_block(topic, r);
    let desc = highlighted_seq(r.description, Seq::empty(), false);
    assert(desc == r.description);
    let header = plain_header_seq(topic, r.tags, r.description);
    assert(block[1] == header);
    assert(line_carries(header, r.description)) by {
        if r.tags.len() > 0 {
            let lead = "["@ + topic + "]["@ + join_seq(r.tags, " "@) + "] "@;
            assert(header == lead + r.description);
            assert((lead + r.description).subrange(
                lead.len() as int,
                (lead + r.description).len() as int,
            ) =~= r.description);
        } else {
            let lead = "["@ + topic + "] "@;
            assert(header == lead + r.description);
            assert((lead + r.description).subrange(
                lead.len() as int,
                (lead + r.description).len() as int,
            ) =~= r.description);
        }
    }
    assert forall|j: int| 0 <= j < r.data.len() implies line_carries(
        #[trigger] block[2 + j],
        r.data[j],
    ) by {
        let entry = r.data[j];
        assert(block[2 + j] == plain_entry_seq(entry));
        if is_comment_seq(entry) {
            assert(entry.subrange(0, entry.len() as int) =~= entry);
        } else {
            assert(("- "@ + entry).subrange("- "@.len() as int, ("- "@ + entry).len() as int)
                =~= entry);
        }
    }
}

} // verus!
