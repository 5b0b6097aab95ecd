//! Reporting over the pipeline's outcomes: the rows of the exported
//! table, and the success/failure tallies of the download and
//! extraction phases.

use vstd::prelude::*;
use vstd::string::StringExecFns;
use crate::models::{DownloadResult, Plugin, opt_str_view};

verus! {

/// One row of the exported table.
pub struct CsvRow {
    pub name: String,
    pub version: String,
    pub slug: String,
    pub status: String,
}

/// Mathematical view of a [`CsvRow`].
pub ghost struct CsvRowView {
    pub name: Seq<char>,
    pub version: Seq<char>,
    pub slug: Seq<char>,
    pub status: Seq<char>,
}

impl View for CsvRow {
    type V = CsvRowView;

    open spec fn view(&self) -> CsvRowView {
        CsvRowView {
            name: self.name@,
            version: self.version@,
            slug: self.slug@,
            status: self.status@,
        }
    }
}

/// Some recorded outcome for `slug` succeeded.
pub open spec fn downloaded_ok(results: Seq<DownloadResult>, slug: Seq<char>) -> bool {
    exists|j: int|
        0 <= j < results.len() && (#[trigger] results[j]@).success && results[j]@.slug == slug
}

fn any_success(results: &Vec<DownloadResult>, slug: &String) -> (r: bool)
    ensures
        r == downloaded_ok(results@, slug@),
{
    let mut j: usize = 0;
    while j < results.len()
        invariant
            j <= results@.len(),
            forall|k: int|
                0 <= k < j ==> !((#[trigger] results@[k]@).success && results@[k]@.slug == slug@),
        decreases results@.len() - j,
    {
        let res = &results[j];
        if res.success && res.slug == *slug {
            proof {
                assert((results@[j as int]@).success && results@[j as int]@.slug == slug@);
            }
            return true;
        }
        proof {
            assert(!((results@[j as int]@).success && results@[j as int]@.slug == slug@));
        }
        j = j + 1;
    }
    false
}

/// The row the first export writes for plugin `p`: no version column
/// yet, and a status saying whether some outcome downloaded it.
pub open spec fn plain_row(p: Plugin, results: Seq<DownloadResult>) -> CsvRowView {
    CsvRowView {
        name: p@.name,
        version: Seq::empty(),
        slug: p@.slug,
        status: if downloaded_ok(results, p@.slug) {
            "downloaded"@
        } else {
            "not downloaded"@
        },
    }
}

/// Builds the rows of the first export, one per plugin in order.
pub fn report_rows(plugins: &Vec<Plugin>, results: &Vec<DownloadResult>) -> (rows: Vec<CsvRow>)
    ensures
        rows@.len() == plugins@.len(),
        forall|i: int| 0 <= i < rows@.len() ==> rows@[i]@ == plain_row(plugins@[i], results@),
{
    let mut rows: Vec<CsvRow> = Vec::new();
    let mut i: usize = 0;
    while i < plugins.len()
        invariant
            i <= plugins@.len(),
            rows@.len() == i,
            forall|k: int| 0 <= k < i ==> rows@[k]@ == plain_row(plugins@[k], results@),
        decreases plugins@.len() - i,
    {
        let p = &plugins[i];
        let ok = any_success(results, &p.slug);
        let status = if ok {
            String::from_str("downloaded")
        } else {
            String::from_str("not downloaded")
        };
        rows.push(
            CsvRow { name: p.name.clone(), version: String::new(), slug: p.slug.clone(), status },
        );
        i = i + 1;
    }
    rows
}

/// The row the enriched export writes for plugin `p`: a downloaded
/// plugin counts as extracted and carries the version found for it, if
/// any; the rest stay `not downloaded` with an empty version.
pub open spec fn enriched_row(
    p: Plugin,
    results: Seq<DownloadResult>,
    version: Option<Seq<char>>,
) -> CsvRowView {
    CsvRowView {
        name: p@.name,
        version: if downloaded_ok(results, p@.slug) {
            match version {
                Some(v) => v,
                None => Seq::empty(),
            }
        } else {
            Seq::empty()
        },
        slug: p@.slug,
        status: if downloaded_ok(results, p@.slug) {
            "extracted"@
        } else {
            "not downloaded"@
        },
    }
}

/// Builds the rows of the enriched export; `versions` carries, for each
/// plugin in order, the version discovered in its extracted text.
pub fn report_rows_with_versions(
    plugins: &Vec<Plugin>,
    results: &Vec<DownloadResult>,
    versions: &Vec<Option<String>>,
) -> (rows: Vec<CsvRow>)
    requires
        versions@.len() == plugins@.len(),
    ensures
        rows@.len() == plugins@.len(),
        forall|i: int|
            0 <= i < rows@.len() ==> rows@[i]@ == enriched_row(
                plugins@[i],
                results@,
                opt_str_view(versions@[i]),
            ),
{
    let mut rows: Vec<CsvRow> = Vec::new();
    let mut i: usize = 0;
    while i < plugins.len()
        invariant
            i <= plugins@.len(),
            versions@.len() == plugins@.len(),
            rows@.len() == i,
            forall|k: int|
                0 <= k < i ==> rows@[k]@ == enriched_row(
                    plugins@[k],
                    results@,
                    opt_str_view(versions@[k]),
                ),
        decreases plugins@.len() - i,
    {
        let p = &plugins[i];
        let ok = any_success(results, &p.slug);
        let version = if ok {
            match &versions[i] {
                Some(v) => v.clone(),
                None => String::new(),
            }
        } else {
            String::new()
        };
        let status = if ok {
            String::from_str("extracted")
        } else {
            String::from_str("not downloaded")
        };
        rows.push(CsvRow { name: p.name.clone(), version, slug: p.slug.clone(), status });
        i = i + 1;
    }
    rows
}

/// How many outcomes of the sequence succeeded.
pub open spec fn success_count(results: Seq<DownloadResult>) -> nat
    decreases results.len(),
{
    if results.len() == 0 {
        0
    } else {
        success_count(results.drop_last()) + if results.last().success {
            1nat
        } else {
            0nat
        }
    }
}

proof fn lemma_success_count_le(results: Seq<DownloadResult>)
    ensures
        success_count(results) <= results.len(),
    decreases results.len(),
{
    if results.len() > 0 {
        lemma_success_count_le(results.drop_last());
    }
}

/// Tallies the download phase: how many outcomes succeeded, and how
/// many failed.
pub fn download_tally(results: &Vec<DownloadResult>) -> (t: (usize, usize))
    ensures
        t.0 == success_count(results@),
        t.1 == results@.len() - success_count(results@),
{
    let mut ok: usize = 0;
    let mut i: usize = 0;
    while i < results.len()
        invariant
            i <= results@.len(),
            ok == success_count(results@.take(i as int)),
            ok <= i,
        decreases results@.len() - i,
    {
        proof {
            assert(results@.take(i + 1).drop_last() =~= results@.take(i as int));
        }
        if results[i].success {
            ok = ok + 1;
        }
        i = i + 1;
    }
    proof {
        assert(results@.take(results@.len() as int) =~= results@);
        lemma_success_count_le(results@);
    }
    (ok, results.len() - ok)
}

/// How one archive's extraction went.
pub struct ExtractAttempt {
    pub slug: String,
    pub success: bool,
}

/// The identifiers of the attempts that succeeded, in order.
pub open spec fn ok_slugs(attempts: Seq<ExtractAttempt>) -> Seq<Seq<char>>
    decreases attempts.len(),
{
    if attempts.len() == 0 {
        Seq::empty()
    } else {
        ok_slugs(attempts.drop_last()) + if attempts.last().success {
            seq![attempts.last().slug@]
        } else {
            Seq::empty()
        }
    }
}

/// How many attempts of the sequence succeeded.
pub open spec fn extract_ok_count(attempts: Seq<ExtractAttempt>) -> nat
    decreases attempts.len(),
{
    if attempts.len() == 0 {
        0
    } else {
        extract_ok_count(attempts.drop_last()) + if attempts.last().success {
            1nat
        } else {
            0nat
        }
    }
}

proof fn lemma_extract_ok_count_le(attempts: Seq<ExtractAttempt>)
    ensures
        extract_ok_count(attempts) <= attempts.len(),
    decreases attempts.len(),
{
    if attempts.len() > 0 {
        lemma_extract_ok_count_le(attempts.drop_last());
    }
}

/// Summarizes the extraction phase: the identifiers successfully
/// extracted, in attempt order, with the success and failure tallies.
/// A failed archive never stops the batch; it only counts as failed.
pub fn summarize_extraction(attempts: &Vec<ExtractAttempt>) -> (r: (Vec<String>, usize, usize))
    ensures
        r.0.deep_view() == ok_slugs(attempts@),
        r.1 == extract_ok_count(attempts@),
        r.2 == attempts@.len() - extract_ok_count(attempts@),
{
    let mut extracted: Vec<String> = Vec::new();
    let mut ok: usize = 0;
    let mut i: usize = 0;
    proof {
        assert(extracted.deep_view() =~= ok_slugs(attempts@.take(0)));
    }
    while i < attempts.len()
        invariant
            i <= attempts@.len(),
            extracted.deep_view() == ok_slugs(attempts@.take(i as int)),
            ok == extract_ok_count(attempts@.take(i as int)),
            ok <= i,
        decreases attempts@.len() - i,
    {
        proof {
            assert(attempts@.take(i + 1).drop_last() =~= attempts@.take(i as int));
        }
        let ghost before = extracted.deep_view();
        let a = &attempts[i];
        if a.success {
            extracted.push(a.slug.clone());
            proof {
                assert(extracted.deep_view() =~= before + seq![attempts@[i as int].slug@]);
            }
        } else {
            proof {
                assert(extracted.deep_view() =~= before + Seq::<Seq<char>>::empty());
            }
        }
        ok = if a.success {
            ok + 1
        } else {
            ok
        };
        i = i + 1;
    }
    proof {
        assert(attempts@.take(attempts@.len() as int) =~= attempts@);
        lemma_extract_ok_count_le(attempts@);
    }
    (extracted, ok, attempts.len() - ok)
}

} // verus!
