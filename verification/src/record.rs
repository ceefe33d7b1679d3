//! Merge-record metadata, the bot-author filter, in-window selection, and
//! the serialized batch handed to the generation backend.

use vstd::prelude::*;
use vstd::string::StringExecFns;
use crate::window::{TimeWindow, spec_in_scope, in_scope};

verus! {

/// Metadata of one closed code-review request, as the source-control host
/// reports it. An absent `merged_at` means the request was never merged.
#[derive(Debug)]
pub struct MergeRecord {
    pub title: Option<String>,
    pub body: Option<String>,
    pub url: Option<String>,
    pub author_login: Option<String>,
    pub merged_at: Option<u64>,
}

/// The mathematical content of a [`MergeRecord`].
pub ghost struct RecordModel {
    pub title: Option<Seq<char>>,
    pub body: Option<Seq<char>>,
    pub url: Option<Seq<char>>,
    pub author_login: Option<Seq<char>>,
    pub merged_at: Option<u64>,
}

pub open spec fn view_of_opt_string(o: Option<String>) -> Option<Seq<char>> {
    match o {
        Some(s) => Some(s@),
        None => None,
    }
}

impl View for MergeRecord {
    type V = RecordModel;

    open spec fn view(&self) -> RecordModel {
        RecordModel {
            title: view_of_opt_string(self.title),
            body: view_of_opt_string(self.body),
            url: view_of_opt_string(self.url),
            author_login: view_of_opt_string(self.author_login),
            merged_at: self.merged_at,
        }
    }
}

impl DeepView for MergeRecord {
    type V = RecordModel;

    open spec fn deep_view(&self) -> RecordModel {
        self.view()
    }
}

impl Clone for MergeRecord {
    fn clone(&self) -> (r: Self)
        ensures
            r@ == self@,
    {
        MergeRecord {
            title: match &self.title {
                Some(t) => Some(t.clone()),
                None => None,
            },
            body: match &self.body {
                Some(t) => Some(t.clone()),
                None => None,
            },
            url: match &self.url {
                Some(t) => Some(t.clone()),
                None => None,
            },
            author_login: match &self.author_login {
                Some(t) => Some(t.clone()),
                None => None,
            },
            merged_at: self.merged_at,
        }
    }
}

/// A record with no resolvable author signals a broken upstream contract
/// and makes the whole filtering step fail.
#[derive(Debug)]
pub enum FilterError {
    MissingAuthor,
}

/// The fixed denylist of automated dependency-update authors.
pub open spec fn spec_is_bot(login: Seq<char>) -> bool {
    login == "dependabot[bot]"@ || login == "renovate[bot]"@
}

/// A record survives the filter when its author is known and not a bot.
pub open spec fn spec_keeps(m: RecordModel) -> bool {
    m.author_login is Some && !spec_is_bot(m.author_login->0)
}

/// The records surviving the bot filter, in their original order.
pub open spec fn spec_kept_records(ms: Seq<RecordModel>) -> Seq<RecordModel>
    decreases ms.len(),
{
    if ms.len() == 0 {
        Seq::empty()
    } else if spec_keeps(ms.last()) {
        spec_kept_records(ms.drop_last()).push(ms.last())
    } else {
        spec_kept_records(ms.drop_last())
    }
}

/// The records whose merge instant lies in the window, in their original
/// order.
pub open spec fn spec_in_scope_records(ms: Seq<RecordModel>, w: TimeWindow) -> Seq<RecordModel>
    decreases ms.len(),
{
    if ms.len() == 0 {
        Seq::empty()
    } else if spec_in_scope(ms.last().merged_at, w) {
        spec_in_scope_records(ms.drop_last(), w).push(ms.last())
    } else {
        spec_in_scope_records(ms.drop_last(), w)
    }
}

fn is_bot(login: &String) -> (r: bool)
    ensures
        r == spec_is_bot(login@),
{
    let dependency_bot: String = String::from_str("dependabot[bot]");
    let renovate_bot: String = String::from_str("renovate[bot]");
    *login == dependency_bot || *login == renovate_bot
}

/// Drops every record authored by a denylisted bot, keeping the others in
/// their original relative order; fails if any record has no author.
pub fn filter_out_renovate_pull_requests(pull_requests: Vec<MergeRecord>) -> (r: Result<
    Vec<MergeRecord>,
    FilterError,
>)
    ensures
        match r {
            Ok(kept) => {
                &&& forall|i: int|
                    0 <= i < pull_requests.deep_view().len() ==> (#[trigger] pull_requests.deep_view()[i]).author_login is Some
                &&& kept.deep_view() == spec_kept_records(pull_requests.deep_view())
            },
            Err(e) => {
                &&& e == FilterError::MissingAuthor
                &&& exists|i: int|
                    0 <= i < pull_requests.deep_view().len() && (#[trigger] pull_requests.deep_view()[i]).author_login is None
            },
        },
{
    let ghost models = pull_requests.deep_view();
    let mut kept: Vec<MergeRecord> = Vec::new();
    let mut i: usize = 0;
    while i < pull_requests.len()
        invariant
            i <= pull_requests.len(),
            models == pull_requests.deep_view(),
            models.len() == pull_requests.len(),
            forall|j: int| 0 <= j < i ==> (#[trigger] models[j]).author_login is Some,
            kept.deep_view() == spec_kept_records(models.take(i as int)),
        decreases pull_requests.len() - i,
    {
        let rec = &pull_requests[i];
        proof {
            assert(models[i as int] == pull_requests@[i as int]@);
            assert(models.take(i as int + 1).drop_last() =~= models.take(i as int));
            assert(models.take(i as int + 1).last() == models[i as int]);
        }
        match &rec.author_login {
            None => {
                return Err(FilterError::MissingAuthor);
            },
            Some(login) => {
                if !is_bot(login) {
                    let copied = rec.clone();
                    kept.push(copied);
                    proof {
                        assert(models[i as int].author_login == Some(login@));
                        assert(spec_keeps(models[i as int]));
                        assert(kept.deep_view() =~= spec_kept_records(models.take(i as int)).push(
                            models[i as int],
                        ));
                        assert(kept.deep_view() == spec_kept_records(models.take(i as int + 1)));
                    }
                } else {
                    proof {
                        assert(models[i as int].author_login == Some(login@));
                        assert(!spec_keeps(models[i as int]));
                        assert(kept.deep_view() == spec_kept_records(models.take(i as int + 1)));
                    }
                }
            },
        }
        i += 1;
    }
    proof {
        assert(models.take(models.len() as int) =~= models);
    }
    Ok(kept)
}


/// The filter removes every denylisted record: each survivor has a known,
/// non-bot author. Order preservation is part of the definition: survivors
/// appear exactly as in the input, in input order.
pub proof fn lemma_kept_records_sound(records: Seq<RecordModel>)
    ensures
        forall|i: int|
            0 <= i < spec_kept_records(records).len() ==> spec_keeps(
                #[trigger] spec_kept_records(records)[i],
            ),
    decreases records.len(),
{
    if records.len() > 0 {
        lemma_kept_records_sound(records.drop_last());
        let prev = spec_kept_records(records.drop_last());
        if spec_keeps(records.last()) {
            assert(spec_kept_records(records) == prev.push(records.last()));
            assert(forall|i: int|
                0 <= i < prev.len() ==> spec_kept_records(records)[i] == prev[i]);
            assert(spec_kept_records(records)[prev.len() as int] == records.last());
        }
    }
}

/// When no record is bot-authored, filtering changes nothing: the output
/// equals the input.
pub proof fn lemma_filter_no_bots(records: Seq<RecordModel>)
    requires
        forall|i: int|
            0 <= i < records.len() ==> (#[trigger] records[i]).author_login is Some && !spec_is_bot(
                records[i].author_login->0,
            ),
    ensures
        spec_kept_records(records) == records,
    decreases records.len(),
{
    if records.len() == 0 {
        assert(spec_kept_records(records) =~= records);
    } else {
        lemma_filter_no_bots(records.drop_last());
        assert(spec_keeps(records.last()));
        assert(spec_kept_records(records) =~= records);
    }
}

/// Keeps exactly the records whose merge instant lies in the window,
/// in their original relative order.
pub fn select_in_scope(records: Vec<MergeRecord>, w: &TimeWindow) -> (r: Vec<MergeRecord>)
    ensures
        r.deep_view() == spec_in_scope_records(records.deep_view(), *w),
{
    let ghost models = records.deep_view();
    let mut selected: Vec<MergeRecord> = Vec::new();
    let mut i: usize = 0;
    while i < records.len()
        invariant
            i <= records.len(),
            models == records.deep_view(),
            models.len() == records.len(),
            selected.deep_view() == spec_in_scope_records(models.take(i as int), *w),
        decreases records.len() - i,
    {
        let rec = &records[i];
        proof {
            assert(models[i as int] == records@[i as int]@);
            assert(models.take(i as int + 1).drop_last() =~= models.take(i as int));
            assert(models.take(i as int + 1).last() == models[i as int]);
        }
        if in_scope(rec.merged_at, w) {
            let copied = rec.clone();
            selected.push(copied);
            proof {
                assert(spec_in_scope(models[i as int].merged_at, *w));
                assert(selected.deep_view() =~= spec_in_scope_records(
                    models.take(i as int),
                    *w,
                ).push(models[i as int]));
                assert(selected.deep_view() == spec_in_scope_records(
                    models.take(i as int + 1),
                    *w,
                ));
            }
        } else {
            proof {
                assert(!spec_in_scope(models[i as int].merged_at, *w));
                assert(selected.deep_view() == spec_in_scope_records(
                    models.take(i as int + 1),
                    *w,
                ));
            }
        }
        i += 1;
    }
    proof {
        assert(models.take(models.len() as int) =~= models);
    }
    selected
}

/// The title text of a record as it enters the batch, with the fallback
/// used when the host supplied none.
pub open spec fn spec_title_text(m: RecordModel) -> Seq<char> {
    match m.title {
        Some(t) => t,
        None => "No title provided"@,
    }
}

/// The request address of a record as it enters the batch, with the
/// placeholder used when the host supplied none.
pub open spec fn spec_url_text(m: RecordModel) -> Seq<char> {
    match m.url {
        Some(t) => t,
        None => "https://github.com"@,
    }
}

/// The body text of a record as it enters the batch, with the fallback
/// used when the host supplied none.
pub open spec fn spec_body_text(m: RecordModel) -> Seq<char> {
    match m.body {
        Some(t) => t,
        None => "No body provided"@,
    }
}

/// One record's block in the serialized batch.
pub open spec fn spec_record_block(m: RecordModel) -> Seq<char> {
    "Pull request title: "@ + spec_title_text(m) + "\nPull request URL: "@ + spec_url_text(m)
        + "\nPull request body: "@ + spec_body_text(m) + "\n-----\n"@
}

/// The serialized batch: every record's block, in order.
pub open spec fn spec_payload(ms: Seq<RecordModel>) -> Seq<char>
    decreases ms.len(),
{
    if ms.len() == 0 {
        Seq::empty()
    } else {
        spec_payload(ms.drop_last()) + spec_record_block(ms.last())
    }
}

/// Serializes the filtered batch for the generation backend: one block per
/// record holding its title, address and body, joined by a delimiter line.
pub fn build_generation_payload(records: &Vec<MergeRecord>) -> (r: String)
    ensures
        r@ == spec_payload(records.deep_view()),
{
    let ghost models = records.deep_view();
    let mut out = String::new();
    let mut i: usize = 0;
    while i < records.len()
        invariant
            i <= records.len(),
            models == records.deep_view(),
            models.len() == records.len(),
            out@ == spec_payload(models.take(i as int)),
        decreases records.len() - i,
    {
        let ghost before = out@;
        let rec = &records[i];
        out.append("Pull request title: ");
        match &rec.title {
            Some(t) => out.append(t.as_str()),
            None => out.append("No title provided"),
        }
        out.append("\nPull request URL: ");
        match &rec.url {
            Some(t) => out.append(t.as_str()),
            None => out.append("https://github.com"),
        }
        out.append("\nPull request body: ");
        match &rec.body {
            Some(t) => out.append(t.as_str()),
            None => out.append("No body provided"),
        }
        out.append("\n-----\n");
        proof {
            assert(models[i as int] == records@[i as int]@);
            assert(out@ =~= before + spec_record_block(models[i as int]));
            assert(models.take(i + 1).drop_last() =~= models.take(i as int));
            assert(models.take(i + 1).last() == models[i as int]);
        }
        i += 1;
    }
    proof {
        assert(models.take(models.len() as int) =~= models);
    }
    out
}

} // verus!
