//! Download planning: the local file name of each link, and whether it still
//! has to be fetched.

use vstd::prelude::*;
use vstd::string::*;
use crate::error::PipelineError;
use crate::scrape::texts;
use crate::text::chars_of;

verus! {

/// Index of the last `/` in `s`, or `-1` if there is none.
pub open spec fn last_slash(s: Seq<char>) -> int
    decreases s.len(),
{
    if s.len() == 0 {
        -1
    } else if s.last() == '/' {
        s.len() - 1
    } else {
        last_slash(s.drop_last())
    }
}

/// The local file name of a link: the text after its last `/`. A link with no
/// `/`, or one that ends in `/`, has none.
pub open spec fn filename_of(link: Seq<char>) -> Option<Seq<char>> {
    let k = last_slash(link);
    if k < 0 || k + 1 >= link.len() {
        None
    } else {
        Some(link.subrange(k + 1, link.len() as int))
    }
}

/// The file names in `names`, as a set.
pub open spec fn name_set(names: Seq<String>) -> Set<Seq<char>> {
    Set::new(|f: Seq<char>| texts(names).contains(f))
}

/// What one download task does.
#[derive(Clone, Copy, Debug, PartialEq, Eq, Structural)]
pub enum DownloadAction {
    /// The file is already present: nothing is read or written.
    Skip,
    /// The file is absent: read the link and write the bytes under `filename`.
    Fetch,
}

/// One download task: a link, the file name it is stored under, and what to do.
#[derive(Debug)]
pub struct DownloadTask {
    pub link: String,
    pub filename: String,
    pub action: DownloadAction,
}

/// The action owed for a file name, given the names already present.
pub open spec fn action_for(filename: Seq<char>, present: Set<Seq<char>>) -> DownloadAction {
    if present.contains(filename) {
        DownloadAction::Skip
    } else {
        DownloadAction::Fetch
    }
}

/// `r` is the planned task of `link` when the names in `present` exist.
pub open spec fn is_planned(
    r: Result<DownloadTask, PipelineError>,
    link: Seq<char>,
    present: Set<Seq<char>>,
) -> bool {
    match filename_of(link) {
        None => r == Err::<DownloadTask, PipelineError>(PipelineError::InvalidLinkFormat),
        Some(f) => match r {
            Ok(t) => t.link@ == link && t.filename@ == f && t.action == action_for(f, present),
            Err(_) => false,
        },
    }
}

/// Index of the last `/` in `s`, or `None`.
fn find_last_slash(s: &Vec<char>) -> (r: Option<usize>)
    ensures
        match r {
            Some(k) => last_slash(s@) == k as int && k < s@.len(),
            None => last_slash(s@) == -1,
        },
{
    let mut n: usize = s.len();
    assert(s@.subrange(0, n as int) =~= s@);
    while n > 0 && s[n - 1] != '/'
        invariant
            n <= s@.len(),
            last_slash(s@) == last_slash(s@.subrange(0, n as int)),
        decreases n,
    {
        assert(s@.subrange(0, n as int).drop_last() =~= s@.subrange(0, n - 1));
        n = n - 1;
    }
    if n == 0 {
        assert(s@.subrange(0, 0).len() == 0);
        None
    } else {
        Some(n - 1)
    }
}

/// The local file name of `link`: the text after its last `/`.
pub fn filename_of_link(link: &str) -> (r: Result<String, PipelineError>)
    ensures
        match filename_of(link@) {
            Some(f) => r is Ok && r->Ok_0@ == f,
            None => r == Err::<String, PipelineError>(PipelineError::InvalidLinkFormat),
        },
{
    let s = chars_of(link);
    match find_last_slash(&s) {
        None => Err(PipelineError::InvalidLinkFormat),
        Some(k) => {
            if k >= s.len() - 1 {
                Err(PipelineError::InvalidLinkFormat)
            } else {
                Ok(link.substring_char(k + 1, s.len()).to_owned())
            }
        },
    }
}

/// Whether two character sequences are equal.
fn same_chars(a: &Vec<char>, b: &Vec<char>) -> (r: bool)
    ensures
        r == (a@ == b@),
{
    if a.len() != b.len() {
        return false;
    }
    let mut i: usize = 0;
    while i < a.len()
        invariant
            a@.len() == b@.len(),
            i <= a@.len(),
            forall|j: int| 0 <= j < i ==> a@[j] == b@[j],
        decreases a@.len() - i,
    {
        if a[i] != b[i] {
            return false;
        }
        i = i + 1;
    }
    assert(a@ =~= b@);
    true
}

/// Whether the name `f` is among `names`.
pub(crate) fn is_listed(names: &Vec<String>, f: &Vec<char>) -> (r: bool)
    ensures
        r == name_set(names@).contains(f@),
{
    let mut i: usize = 0;
    while i < names.len()
        invariant
            i <= names@.len(),
            forall|j: int| 0 <= j < i ==> names@[j]@ != f@,
        decreases names@.len() - i,
    {
        let c = chars_of(names[i].as_str());
        if same_chars(&c, f) {
            assert(texts(names@)[i as int] == f@);
            return true;
        }
        i = i + 1;
    }
    assert(!texts(names@).contains(f@));
    false
}

/// Plans the download of `link` into a directory that already holds the
/// files named in `present`: skip when its file name is there, fetch when it
/// is not, and fail with `InvalidLinkFormat` when the link has no file name.
pub fn plan_download(link: &str, present: &Vec<String>) -> (r: Result<DownloadTask, PipelineError>)
    ensures
        is_planned(r, link@, name_set(present@)),
{
    match filename_of_link(link) {
        Err(e) => Err(e),
        Ok(filename) => {
            let c = chars_of(filename.as_str());
            let action = if is_listed(present, &c) {
                DownloadAction::Skip
            } else {
                DownloadAction::Fetch
            };
            Ok(DownloadTask { link: link.to_owned(), filename, action })
        },
    }
}

/// Plans the download of every link, in order, into a directory that already
/// holds the files named in `present`. Each task stands alone: an invalid link
/// yields its own error and leaves the others as they are.
pub fn plan_downloads(links: &Vec<String>, present: &Vec<String>) -> (r: Vec<Result<DownloadTask, PipelineError>>)
    ensures
        r@.len() == links@.len(),
        forall|i: int| 0 <= i < links@.len() ==> #[trigger] is_planned(r@[i], links@[i]@, name_set(present@)),
{
    let mut r: Vec<Result<DownloadTask, PipelineError>> = Vec::new();
    for i in 0..links.len()
        invariant
            r@.len() == i,
            forall|j: int| 0 <= j < i ==> #[trigger] is_planned(r@[j], links@[j]@, name_set(present@)),
    {
        r.push(plan_download(links[i].as_str(), present));
    }
    r
}

/// The file names under which a complete run over `links` stores files.
pub open spec fn stored_names(links: Seq<Seq<char>>) -> Set<Seq<char>> {
    Set::new(|f: Seq<char>| exists|i: int| 0 <= i < links.len() && filename_of(links[i]) == Some(f))
}

/// The names in a directory that held `present` after a run over `links` in
/// which every planned fetch was written.
pub open spec fn after_run(links: Seq<Seq<char>>, present: Set<Seq<char>>) -> Set<Seq<char>> {
    present.union(stored_names(links))
}

/// A link without any `/` has no file name, so its task fails with
/// `InvalidLinkFormat` before any read or write is planned.
pub proof fn lemma_no_slash_no_filename(link: Seq<char>)
    requires
        forall|i: int| 0 <= i < link.len() ==> link[i] != '/',
    ensures
        filename_of(link) is None,
        forall|r: Result<DownloadTask, PipelineError>, present: Set<Seq<char>>|
            #[trigger] is_planned(r, link, present)
                ==> r == Err::<DownloadTask, PipelineError>(PipelineError::InvalidLinkFormat),
{
    lemma_last_slash_absent(link);
}

proof fn lemma_last_slash_absent(s: Seq<char>)
    requires
        forall|i: int| 0 <= i < s.len() ==> s[i] != '/',
    ensures
        last_slash(s) == -1,
    decreases s.len(),
{
    if s.len() > 0 {
        assert(s.last() == s[s.len() - 1]);
        lemma_last_slash_absent(s.drop_last());
    }
}

/// Downloading is idempotent: once a run over `links` has written every file
/// it fetched, a second run over the same links into the same directory
/// fetches nothing, and so leaves the directory as it is.
pub proof fn lemma_second_run_fetches_nothing(links: Seq<Seq<char>>, present: Set<Seq<char>>)
    ensures
        forall|i: int, r: Result<DownloadTask, PipelineError>|
            0 <= i < links.len() && #[trigger] is_planned(r, links[i], after_run(links, present))
                ==> r is Err || r->Ok_0.action == DownloadAction::Skip,
        after_run(links, after_run(links, present)) == after_run(links, present),
{
    let after = after_run(links, present);
    assert forall|i: int, r: Result<DownloadTask, PipelineError>|
        0 <= i < links.len() && #[trigger] is_planned(r, links[i], after)
            implies r is Err || r->Ok_0.action == DownloadAction::Skip by {
        if let Some(f) = filename_of(links[i]) {
            assert(stored_names(links).contains(f));
        }
    }
    assert(after_run(links, after) =~= after);
}

} // verus!
