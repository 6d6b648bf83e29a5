//! JSON-backed topics.
//!
//! The JSON build stores a topic file as a bare list of records.  This
//! module owns the record type of that format and its filter engine, and
//! renders through the shared renderer, comment handling included.  The
//! file itself is read and deserialized by the calling layer.

use crate::record::{filter_records, keeps, lemma_filter_records_push, RecordView};
use crate::render::{
    colorized_desc, colorized_header, emphasize_matches, emphasize_seq, entry_line,
    entry_lines_seq, lemma_topic_lines_push, plain_header, record_lines, topic_lines, RenderMode,
};
use crate::text::{contains_str, eq_str, extension_seq, has_extension, replace_seq};
use crate::KError;
use vstd::prelude::*;
use vstd::string::StrSliceExecFns;
use vstd::string::StringExecFns;

verus! {

/// One cheatsheet record: a one-line description, ordered command or
/// snippet lines, and a set of short tags.
#[derive(Debug)]
pub struct Cheatsheet {
    pub description: String,
    pub data: Vec<String>,
    pub tags: Vec<String>,
}

impl View for Cheatsheet {
    type V = RecordView;

    open spec fn view(&self) -> RecordView {
        RecordView {
            description: self.description@,
            data: self.data.deep_view(),
            tags: self.tags.deep_view(),
        }
    }
}

/// The models of a list of records, in the same order.
pub open spec fn views_of(cs: Seq<Cheatsheet>) -> Seq<RecordView> {
    cs.map_values(|c: Cheatsheet| c@)
}

impl Clone for Cheatsheet {
    /// A clone models the same record.
    fn clone(&self) -> (r: Self)
        ensures
            r@ == self@,
    {
        let r = Cheatsheet {
            description: self.description.clone(),
            data: self.data.clone(),
            tags: self.tags.clone(),
        };
        proof {
            assert(r.data.deep_view() =~= self.data.deep_view());
            assert(r.tags.deep_view() =~= self.tags.deep_view());
        }
        r
    }
}

/// Whether `f` is exactly one of the tags.
fn tags_contain(tags: &Vec<String>, f: &str) -> (b: bool)
    ensures
        b == tags.deep_view().contains(f@),
{
    let mut i: usize = 0;
    while i < tags.len()
        invariant
            i <= tags.len(),
            forall|k: int| 0 <= k < i ==> tags.deep_view()[k] != f@,
        decreases tags.len() - i,
    {
        if eq_str(tags[i].as_str(), f) {
            assert(tags.deep_view()[i as int] == f@);
            return true;
        }
        i += 1;
    }
    false
}

/// Whether the record passes both filter axes.
fn record_matches(c: &Cheatsheet, search: &str, filter: &str) -> (b: bool)
    ensures
        b == keeps(c@, search@, filter@),
{
    let search_ok = search.unicode_len() == 0 || contains_str(c.description.as_str(), search);
    let filter_ok = filter.unicode_len() == 0 || tags_contain(&c.tags, filter);
    search_ok && filter_ok
}

/// The order-preserving sublist of records that pass the filter criteria:
/// a non-empty `search` keeps records whose description contains it, a
/// non-empty `filter` keeps records tagged exactly with it, and both
/// combine with AND.  Never fails; no matches is an empty list.
pub fn parse_topic(cheatsheets: &Vec<Cheatsheet>, search: &str, filter: &str) -> (res: Result<
    Vec<Cheatsheet>,
    KError,
>)
    ensures
        res is Ok,
        views_of(res->Ok_0@) == filter_records(views_of(cheatsheets@), search@, filter@),
{
    let mut matches: Vec<Cheatsheet> = Vec::new();
    let mut i: usize = 0;
    proof {
        assert(views_of(matches@) =~= Seq::<RecordView>::empty());
        assert(views_of(cheatsheets@.take(0)) =~= Seq::<RecordView>::empty());
    }
    while i < cheatsheets.len()
        invariant
            i <= cheatsheets@.len(),
            views_of(matches@) == filter_records(
                views_of(cheatsheets@.take(i as int)),
                search@,
                filter@,
            ),
        decreases cheatsheets@.len() - i,
    {
        let ghost pre = views_of(cheatsheets@.take(i as int));
        let ghost pre_matches = views_of(matches@);
        let c = &cheatsheets[i];
        if record_matches(c, search, filter) {
            matches.push(c.clone());
            proof {
                assert(views_of(matches@) =~= pre_matches.push(cheatsheets@[i as int]@));
            }
        }
        proof {
            lemma_filter_records_push(pre, search@, filter@, cheatsheets@[i as int]@);
            assert(views_of(cheatsheets@.take(i + 1)) =~= pre.push(cheatsheets@[i as int]@));
        }
        i += 1;
    }
    proof {
        assert(cheatsheets@.take(cheatsheets@.len() as int) =~= cheatsheets@);
    }
    Ok(matches)
}

/// Whether `path` names a JSON topic file.
pub fn is_json_file(path: &str) -> (b: bool)
    ensures
        b == (extension_seq(path@) == Some("json"@)),
{
    has_extension(path, "json")
}

impl Cheatsheet {
    /// The description with every occurrence of `search` wrapped in the
    /// match-emphasis style.
    pub fn colorized_match(&self, search: &str) -> (r: String)
        ensures
            r@ == replace_seq(self@.description, search@, emphasize_seq(search@)),
    {
        emphasize_matches(self.description.as_str(), search)
    }

    /// The record rendered as its display lines.
    pub fn render(&self, topic: &str, search: &str, mode: RenderMode, match_colored: bool) -> (
        lines: Vec<String>)
        ensures
            lines.deep_view() == record_lines(mode, topic@, self@, search@, match_colored),
    {
        let desc = if match_colored {
            self.colorized_match(search)
        } else {
            self.description.clone()
        };
        let mut lines: Vec<String> = Vec::new();
        lines.push(String::new());
        match mode {
            RenderMode::Plain => {
                lines.push(plain_header(topic, &self.tags, desc.as_str()));
            },
            RenderMode::Colorized => {
                lines.push(colorized_header(topic, &self.tags));
                lines.push(colorized_desc(desc.as_str()));
            },
        }
        let ghost head = lines.deep_view();
        proof {
            assert(head + entry_lines_seq(self@.data, mode) =~~= record_lines(
                mode,
                topic@,
                self@,
                search@,
                match_colored,
            ));
        }
        let mut j: usize = 0;
        while j < self.data.len()
            invariant
                j <= self.data.len(),
                lines.deep_view() == head + entry_lines_seq(
                    self.data.deep_view().take(j as int),
                    mode,
                ),
                head + entry_lines_seq(self.data.deep_view(), mode) == record_lines(
                    mode,
                    topic@,
                    self@,
                    search@,
                    match_colored,
                ),
            decreases self.data.len() - j,
        {
            let ghost pre = lines.deep_view();
            let line = entry_line(self.data[j].as_str(), mode);
            lines.push(line);
            proof {
                assert(lines.deep_view() =~~= pre.push(line@));
                assert(entry_lines_seq(self.data.deep_view().take(j + 1), mode)
                    =~~= entry_lines_seq(self.data.deep_view().take(j as int), mode).push(line@));
                assert(head + entry_lines_seq(self.data.deep_view().take(j as int), mode).push(
                    line@,
                ) =~~= (head + entry_lines_seq(self.data.deep_view().take(j as int), mode)).push(
                    line@,
                ));
            }
            j += 1;
        }
        proof {
            assert(self.data.deep_view().take(self.data.len() as int) =~~= self.data.deep_view());
        }
        lines
    }
}

/// The lines rendered for a topic, and whether anything matched.
///
/// Filters the records, renders every match in order, and reports whether
/// at least one record matched.  Zero matches is a valid, silent outcome:
/// the line list is empty and the flag is false.
pub fn show_topic(
    cheatsheets: &Vec<Cheatsheet>,
    topic: &str,
    search: &str,
    filter: &str,
    mode: RenderMode,
    match_colored: bool,
) -> (r: (Vec<String>, bool))
    ensures
        ({
            let matched = filter_records(views_of(cheatsheets@), search@, filter@);
            &&& r.0.deep_view() == topic_lines(mode, topic@, matched, search@, match_colored)
            &&& r.1 == (matched.len() > 0)
        }),
{
    let found = match parse_topic(cheatsheets, search, filter) {
        Ok(v) => v,
        Err(_) => vstd::pervasive::unreached(),
    };
    let ghost matched = filter_records(views_of(cheatsheets@), search@, filter@);
    let mut lines: Vec<String> = Vec::new();
    let mut i: usize = 0;
    proof {
        assert(views_of(found@).take(0) =~= Seq::<RecordView>::empty());
    }
    while i < found.len()
        invariant
            i <= found.len(),
            views_of(found@) == matched,
            lines.deep_view() == topic_lines(
                mode,
                topic@,
                views_of(found@).take(i as int),
                search@,
                match_colored,
            ),
        decreases found.len() - i,
    {
        let ghost pre = lines.deep_view();
        let mut rec_lines = found[i].render(topic, search, mode, match_colored);
        let ghost rec = rec_lines.deep_view();
        lines.append(&mut rec_lines);
        proof {
            lemma_topic_lines_push(
                mode,
                topic@,
                views_of(found@).take(i as int),
                search@,
                match_colored,
                views_of(found@)[i as int],
            );
            assert(views_of(found@).take(i + 1) =~= views_of(found@).take(i as int).push(
                views_of(found@)[i as int],
            ));
            assert(lines.deep_view() =~~= pre + rec);
        }
        i += 1;
    }
    proof {
        assert(views_of(found@).take(found.len() as int) =~= views_of(found@));
    }
    let any = found.len() > 0;
    (lines, any)
}

} // verus!
