//! Pages: every group of a schedule page, each read on its own, so that a
//! group that fails leaves the others as they are.

use crate::error::ParseError;
use crate::group::{group_of, lines_of, outcome_view, parse_group, Group, GroupView};
use crate::markup::{select_fragments, selection};
use crate::text::string_views;
use vstd::prelude::*;

verus! {

/// What a page yielded: the groups that were read, in the order of the page,
/// and for each group that could not be read its position among the page's
/// group fragments, counted from 0, with the reason.
#[derive(Clone, Debug, PartialEq, Eq)]
pub struct PageReport {
    pub groups: Vec<Group>,
    pub failures: Vec<(usize, ParseError)>,
}

/// A report as mathematical data.
pub struct PageReportView {
    pub groups: Seq<GroupView>,
    pub failures: Seq<(usize, ParseError)>,
}

/// The groups of `groups` as mathematical data.
pub open spec fn group_views(groups: Seq<Group>) -> Seq<GroupView> {
    Seq::new(groups.len(), |i: int| groups[i]@)
}

impl View for PageReport {
    type V = PageReportView;

    open spec fn view(&self) -> PageReportView {
        PageReportView { groups: group_views(self.groups@), failures: self.failures@ }
    }
}

/// The report without any entry.
pub open spec fn empty_report() -> PageReportView {
    PageReportView { groups: Seq::empty(), failures: Seq::empty() }
}

/// `report` after the outcome of the fragment at position `index` is entered:
/// a group goes behind the groups, an error behind the failures, with the
/// position.
pub open spec fn recorded(
    report: PageReportView,
    index: usize,
    outcome: Result<GroupView, ParseError>,
) -> PageReportView {
    match outcome {
        Ok(g) => PageReportView { groups: report.groups.push(g), failures: report.failures },
        Err(e) => PageReportView {
            groups: report.groups,
            failures: report.failures.push((index, e)),
        },
    }
}

/// The report of the outcomes of a page's fragments, entered in order.
pub open spec fn report_of(outcomes: Seq<Result<GroupView, ParseError>>) -> PageReportView
    decreases outcomes.len(),
{
    if outcomes.len() == 0 {
        empty_report()
    } else {
        recorded(
            report_of(outcomes.drop_last()),
            (outcomes.len() - 1) as usize,
            outcomes.last(),
        )
    }
}

/// The outcome of each of the group fragments `fragments`.
pub open spec fn outcomes_of(fragments: Seq<Seq<char>>) -> Seq<Result<GroupView, ParseError>> {
    Seq::new(fragments.len(), |i: int| group_of(fragments[i]))
}

/// The group fragments of a page: its `div.groupe` elements.
pub open spec fn fragments_of(html: Seq<char>) -> Seq<Seq<char>> {
    selection(html, "div.groupe"@)
}

/// The report of a page: that of the outcomes of its group fragments.
pub open spec fn page_of(html: Seq<char>) -> PageReportView {
    report_of(outcomes_of(fragments_of(html)))
}

impl PageReport {
    /// A report without any entry.
    pub fn new() -> (report: PageReport)
        ensures
            report@ == empty_report(),
    {
        let report = PageReport { groups: Vec::new(), failures: Vec::new() };
        proof {
            assert(report@.groups =~= Seq::<GroupView>::empty());
        }
        report
    }

    /// Enters the outcome of the fragment at position `index`.
    pub fn record(&mut self, index: usize, outcome: Result<Group, ParseError>)
        ensures
            final(self)@ == recorded(old(self)@, index, outcome_view(outcome)),
    {
        match outcome {
            Ok(g) => {
                self.groups.push(g);
                proof {
                    assert(group_views(self.groups@) =~= group_views(old(self).groups@).push(g@));
                }
            },
            Err(e) => {
                self.failures.push((index, e));
            },
        }
    }
}

/// Reads each of the group fragments `fragments` by `parse_group` and enters
/// its group or its error in a report, at the fragment's position. A fragment
/// that fails does not touch the entries of the others.
pub fn groups_from_fragments(fragments: &Vec<String>) -> (report: PageReport)
    ensures
        report@ == report_of(outcomes_of(string_views(fragments@))),
{
    let ghost outcomes = outcomes_of(string_views(fragments@));
    let mut report = PageReport::new();
    let mut i: usize = 0;
    while i < fragments.len()
        invariant
            i <= fragments.len(),
            outcomes == outcomes_of(string_views(fragments@)),
            report@ == report_of(outcomes.take(i as int)),
        decreases fragments.len() - i,
    {
        let outcome = parse_group(fragments[i].clone());
        proof {
            let upto = outcomes.take(i + 1);
            assert(upto.drop_last() =~= outcomes.take(i as int));
        }
        report.record(i, outcome);
        i += 1;
    }
    proof {
        assert(outcomes.take(fragments.len() as int) =~= outcomes);
    }
    report
}

/// Reads every group of a page. The page's `div.groupe` elements are its
/// group fragments, read as by `groups_from_fragments`. A page without group
/// fragments gives the empty report.
pub fn parse_groups(html: String) -> (report: PageReport)
    ensures
        report@ == page_of(html@),
{
    let fragments = select_fragments(html.as_str(), "div.groupe");
    groups_from_fragments(&fragments)
}

/// Every fragment is entered once: the groups and the failures of a report
/// are together as many as the outcomes.
pub proof fn lemma_report_counts(outcomes: Seq<Result<GroupView, ParseError>>)
    ensures
        report_of(outcomes).groups.len() + report_of(outcomes).failures.len() == outcomes.len(),
    decreases outcomes.len(),
{
    if outcomes.len() > 0 {
        lemma_report_counts(outcomes.drop_last());
    }
}

/// The failures of a report are the outcomes that are errors: each entry
/// names a position whose outcome is that error, the positions rise from
/// entry to entry, so that none is named twice, and every outcome that is an
/// error has its entry.
pub proof fn lemma_report_failures(outcomes: Seq<Result<GroupView, ParseError>>)
    requires
        outcomes.len() <= usize::MAX,
    ensures
        forall|k: int|
            0 <= k < report_of(outcomes).failures.len() ==> {
                let entry = #[trigger] report_of(outcomes).failures[k];
                entry.0 < outcomes.len() && outcomes[entry.0 as int] == Err::<
                    GroupView,
                    ParseError,
                >(entry.1)
            },
        forall|j: int, k: int|
            0 <= j < k < report_of(outcomes).failures.len() ==> (#[trigger] report_of(
                outcomes,
            ).failures[j]).0 < (#[trigger] report_of(outcomes).failures[k]).0,
        forall|i: int|
            0 <= i < outcomes.len() && (#[trigger] outcomes[i]) is Err ==> report_of(
                outcomes,
            ).failures.contains((i as usize, outcomes[i]->Err_0)),
    decreases outcomes.len(),
{
    if outcomes.len() > 0 {
        let front = outcomes.drop_last();
        let last = (outcomes.len() - 1) as usize;
        lemma_report_failures(front);
        let before = report_of(front).failures;
        let after = report_of(outcomes).failures;
        assert forall|i: int|
            0 <= i < outcomes.len() && (#[trigger] outcomes[i]) is Err implies after.contains(
            (i as usize, outcomes[i]->Err_0),
        ) by {
            if i < front.len() {
                assert(front[i] == outcomes[i]);
                let k = choose|k: int|
                    0 <= k < before.len() && before[k] == (i as usize, outcomes[i]->Err_0);
                assert(after[k] == before[k]);
            } else {
                assert(after[after.len() - 1] == (last, outcomes[i]->Err_0));
            }
        }
    }
}

/// The groups of a report are the outcomes that are groups: every outcome
/// that is a group is among them, whatever the other outcomes are, and each
/// of them is the outcome of some fragment.
pub proof fn lemma_report_groups(outcomes: Seq<Result<GroupView, ParseError>>)
    ensures
        forall|i: int|
            0 <= i < outcomes.len() && (#[trigger] outcomes[i]) is Ok ==> report_of(
                outcomes,
            ).groups.contains(outcomes[i]->Ok_0),
        forall|k: int|
            0 <= k < report_of(outcomes).groups.len() ==> outcomes.contains(
                Ok::<GroupView, ParseError>(#[trigger] report_of(outcomes).groups[k]),
            ),
    decreases outcomes.len(),
{
    if outcomes.len() > 0 {
        let front = outcomes.drop_last();
        lemma_report_groups(front);
        let before = report_of(front).groups;
        let after = report_of(outcomes).groups;
        assert forall|i: int|
            0 <= i < outcomes.len() && (#[trigger] outcomes[i]) is Ok implies after.contains(
            outcomes[i]->Ok_0,
        ) by {
            if i < front.len() {
                assert(front[i] == outcomes[i]);
                let k = choose|k: int| 0 <= k < before.len() && before[k] == outcomes[i]->Ok_0;
                assert(after[k] == before[k]);
            } else {
                assert(after[after.len() - 1] == outcomes[i]->Ok_0);
            }
        }
        assert forall|k: int| 0 <= k < after.len() implies outcomes.contains(
            Ok::<GroupView, ParseError>(#[trigger] after[k]),
        ) by {
            if k < before.len() {
                let i = choose|i: int|
                    0 <= i < front.len() && front[i] == Ok::<GroupView, ParseError>(before[k]);
                assert(outcomes[i] == front[i]);
            } else {
                assert(outcomes[outcomes.len() - 1] == Ok::<GroupView, ParseError>(after[k]));
            }
        }
    }
}

/// A page without group fragments gives no group and no failure.
pub proof fn lemma_page_without_groups(html: Seq<char>)
    requires
        fragments_of(html).len() == 0,
    ensures
        page_of(html) == empty_report(),
{
}

/// A group fragment with fewer than five lines is reported once, at its
/// position, as a `StructureMismatch`, and every other fragment of the page
/// that writes a group has its group in the report.
pub proof fn lemma_short_fragment_reported(html: Seq<char>, i: int)
    requires
        fragments_of(html).len() <= usize::MAX,
        0 <= i < fragments_of(html).len(),
        lines_of(fragments_of(html)[i]).len() < 5,
    ensures
        page_of(html).failures.contains((i as usize, ParseError::StructureMismatch)),
        forall|j: int, k: int|
            0 <= j < k < page_of(html).failures.len() ==> (#[trigger] page_of(html).failures[j]).0
                != (#[trigger] page_of(html).failures[k]).0,
        forall|j: int|
            0 <= j < fragments_of(html).len() && group_of(#[trigger] fragments_of(html)[j]) is Ok
                ==> page_of(html).groups.contains(group_of(fragments_of(html)[j])->Ok_0),
{
    let fragments = fragments_of(html);
    let outcomes = outcomes_of(fragments);
    lemma_report_failures(outcomes);
    lemma_report_groups(outcomes);
    assert(outcomes[i] is Err);
    assert forall|j: int|
        0 <= j < fragments.len() && group_of(#[trigger] fragments[j]) is Ok implies page_of(
        html,
    ).groups.contains(group_of(fragments[j])->Ok_0) by {
        assert(outcomes[j] == group_of(fragments[j]));
    }
}

} // verus!
