//! The search path and multi-directory aggregation.
//!
//! The search path is one configuration value split on `:` into an ordered
//! list of directories; order decides processing and display order, and
//! duplicates are kept.  A missing value is a fatal configuration error,
//! raised before anything else happens.  A single directory's failure is
//! never fatal: the remaining directories are still processed, and a
//! "found anything" flag is accumulated across all of them.

use crate::knowledge::{show_topic, views_of, Knowledge};
use crate::record::{filter_records, RecordView};
use crate::render::{topic_lines, RenderMode};
use crate::text::{split_on_char, split_seq};
use crate::KError;
use vstd::prelude::*;
use vstd::string::StringExecFns;

verus! {

/// The directory separator of the search-path value.
pub open spec fn path_separator() -> char {
    ':'
}

/// The ordered directories named by the search-path value, or
/// `ConfigError` when the value is absent.
///
/// The value is split on `:` with no trimming and no existence check;
/// duplicates and empty parts are kept.  The error comes before any
/// directory is looked at, so an absent value aborts the whole run.
pub fn configured_directories(value: Option<&str>) -> (res: Result<Vec<String>, KError>)
    ensures
        value is None <==> res == Result::<Vec<String>, KError>::Err(KError::ConfigError),
        value matches Some(v) ==> res matches Ok(dirs) && dirs.deep_view() == split_seq(
            v@,
            path_separator(),
        ),
{
    match value {
        Some(v) => Ok(split_on_char(v, ':')),
        None => Err(KError::ConfigError),
    }
}

/// What one directory yielded for a named topic: its loaded record list,
/// or nothing, because the topic's file is absent there or could not be
/// read or parsed.
pub enum TopicOutcome {
    Loaded(Vec<Knowledge>),
    Missing,
}

impl View for TopicOutcome {
    type V = Option<Seq<RecordView>>;

    open spec fn view(&self) -> Option<Seq<RecordView>> {
        match self {
            TopicOutcome::Loaded(ks) => Some(views_of(ks@)),
            TopicOutcome::Missing => None,
        }
    }
}

/// The models of a list of per-directory outcomes, in directory order.
pub open spec fn outcome_views(os: Seq<TopicOutcome>) -> Seq<Option<Seq<RecordView>>> {
    os.map_values(|o: TopicOutcome| o@)
}

/// The diagnostic line reported for a directory that has no readable
/// topic of this name.
pub open spec fn unknown_topic_seq(topic: Seq<char>) -> Seq<char> {
    "Unknown topic named '"@ + topic + "'"@
}

/// The lines of a named-topic lookup across directories, in directory
/// order: each loaded directory contributes its filtered, rendered
/// records; each missing one contributes a single diagnostic line and
/// never stops the directories after it.
pub open spec fn lookup_lines(
    outcomes: Seq<Option<Seq<RecordView>>>,
    mode: RenderMode,
    topic: Seq<char>,
    search: Seq<char>,
    filter: Seq<char>,
    match_colored: bool,
) -> Seq<Seq<char>>
    decreases outcomes.len(),
{
    if outcomes.len() == 0 {
        Seq::empty()
    } else {
        let head = match outcomes[0] {
            Some(rs) => topic_lines(
                mode,
                topic,
                filter_records(rs, search, filter),
                search,
                match_colored,
            ),
            None => seq![unknown_topic_seq(topic)],
        };
        head + lookup_lines(outcomes.drop_first(), mode, topic, search, filter, match_colored)
    }
}

/// Whether any directory yielded at least one matching record.
pub open spec fn lookup_found(
    outcomes: Seq<Option<Seq<RecordView>>>,
    search: Seq<char>,
    filter: Seq<char>,
) -> bool {
    exists|i: int|
        0 <= i < outcomes.len() && ((#[trigger] outcomes[i]) matches Some(rs) && filter_records(
            rs,
            search,
            filter,
        ).len() > 0)
}

/// One more outcome appends exactly its lines.
proof fn lemma_lookup_lines_push(
    outcomes: Seq<Option<Seq<RecordView>>>,
    mode: RenderMode,
    topic: Seq<char>,
    search: Seq<char>,
    filter: Seq<char>,
    match_colored: bool,
    o: Option<Seq<RecordView>>,
)
    ensures
        lookup_lines(outcomes.push(o), mode, topic, search, filter, match_colored) == lookup_lines(
            outcomes,
            mode,
            topic,
            search,
            filter,
            match_colored,
        ) + (match o {
            Some(rs) => topic_lines(
                mode,
                topic,
                filter_records(rs, search, filter),
                search,
                match_colored,
            ),
            None => seq![unknown_topic_seq(topic)],
        }),
    decreases outcomes.len(),
{
    let tail = match o {
        Some(rs) => topic_lines(
            mode,
            topic,
            filter_records(rs, search, filter),
            search,
            match_colored,
        ),
        None => seq![unknown_topic_seq(topic)],
    };
    if outcomes.len() == 0 {
        assert(outcomes.push(o)[0] == o);
        assert(outcomes.push(o).drop_first() =~= Seq::<Option<Seq<RecordView>>>::empty());
        assert(lookup_lines(
            outcomes.push(o).drop_first(),
            mode,
            topic,
            search,
            filter,
            match_colored,
        ) == Seq::<Seq<char>>::empty());
        assert(tail + Seq::<Seq<char>>::empty() =~~= Seq::<Seq<char>>::empty() + tail);
    } else {
        assert(outcomes.push(o)[0] == outcomes[0]);
        assert(outcomes.push(o).drop_first() =~= outcomes.drop_first().push(o));
        lemma_lookup_lines_push(
            outcomes.drop_first(),
            mode,
            topic,
            search,
            filter,
            match_colored,
            o,
        );
        let head = match outcomes[0] {
            Some(rs) => topic_lines(
                mode,
                topic,
                filter_records(rs, search, filter),
                search,
                match_colored,
            ),
            None => seq![unknown_topic_seq(topic)],
        };
        let mid = lookup_lines(outcomes.drop_first(), mode, topic, search, filter, match_colored);
        assert(head + (mid + tail) =~~= (head + mid) + tail);
    }
}

/// The diagnostic line for a directory with no readable topic of this
/// name.
pub fn unknown_topic_line(topic: &str) -> (r: String)
    ensures
        r@ == unknown_topic_seq(topic@),
{
    let mut r = String::new();
    r.append("Unknown topic named '");
    r.append(topic);
    r.append("'");
    proof {
        assert(r@ =~= unknown_topic_seq(topic@));
    }
    r
}

/// A named-topic lookup across every configured directory, in order.
///
/// `outcomes` holds, per directory and in directory order, the topic's
/// loaded records or `Missing` for a directory where the topic is absent
/// or unreadable.  Every directory is processed: a missing one yields one
/// diagnostic line and the lookup goes on with the rest.  The flag
/// reports whether any directory yielded a matching record.
pub fn lookup_topic(
    outcomes: &Vec<TopicOutcome>,
    topic: &str,
    search: &str,
    filter: &str,
    mode: RenderMode,
    match_colored: bool,
) -> (r: (Vec<String>, bool))
    ensures
        r.0.deep_view() == lookup_lines(
            outcome_views(outcomes@),
            mode,
            topic@,
            search@,
            filter@,
            match_colored,
        ),
        r.1 == lookup_found(outcome_views(outcomes@), search@, filter@),
{
    let ghost ovs = outcome_views(outcomes@);
    let mut lines: Vec<String> = Vec::new();
    let mut any: bool = false;
    let mut i: usize = 0;
    proof {
        assert(ovs.take(0) =~= Seq::<Option<Seq<RecordView>>>::empty());
    }
    while i < outcomes.len()
        invariant
            i <= outcomes.len(),
            ovs == outcome_views(outcomes@),
            lines.deep_view() == lookup_lines(
                ovs.take(i as int),
                mode,
                topic@,
                search@,
                filter@,
                match_colored,
            ),
            any == lookup_found(ovs.take(i as int), search@, filter@),
        decreases outcomes.len() - i,
    {
        let ghost pre = lines.deep_view();
        let ghost pre_any = any;
        match &outcomes[i] {
            TopicOutcome::Loaded(ks) => {
                let (mut topic_out, found_here) = show_topic(
                    ks.as_slice(),
                    topic,
                    search,
                    filter,
                    mode,
                    match_colored,
                );
                let ghost rec = topic_out.deep_view();
                lines.append(&mut topic_out);
                any = any || found_here;
                proof {
                    assert(lines.deep_view() =~~= pre + rec);
                }
            },
            TopicOutcome::Missing => {
                lines.push(unknown_topic_line(topic));
                proof {
                    assert(lines.deep_view() =~~= pre + seq![unknown_topic_seq(topic@)]);
                }
            },
        }
        proof {
            lemma_lookup_lines_push(
                ovs.take(i as int),
                mode,
                topic@,
                search@,
                filter@,
                match_colored,
                ovs[i as int],
            );
            assert(ovs.take(i + 1) =~= ovs.take(i as int).push(ovs[i as int]));
            // the found flag accumulates with OR across directories
            if any {
                if pre_any {
                    let k = choose|k: int|
                        0 <= k < i && ((#[trigger] ovs.take(i as int)[k]) matches Some(rs)
                            && filter_records(
                            rs,
                            search@,
                            filter@,
                        ).len() > 0);
                    assert(ovs.take(i + 1)[k] == ovs.take(i as int)[k]);
                } else {
                    assert(ovs.take(i + 1)[i as int] == ovs[i as int]);
                }
            } else {
                assert forall|k: int| 0 <= k < i + 1 implies !((#[trigger] ovs.take(i + 1)[k])
                    matches Some(rs) && filter_records(rs, search@, filter@).len() > 0) by {
                    if k < i {
                        assert(ovs.take(i as int)[k] == ovs.take(i + 1)[k]);
                        assert(!lookup_found(ovs.take(i as int), search@, filter@));
                    }
                }
            }
        }
        i += 1;
    }
    proof {
        assert(ovs.take(outcomes.len() as int) =~= ovs);
    }
    (lines, any)
}

} // verus!
