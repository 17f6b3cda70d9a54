use vstd::prelude::*;
use crate::location::{Location, location_of, resolve_location};

verus! {

/// A requested crawl target: where it lives and the identifier its rows are stored under.
#[derive(Debug)]
pub struct Root {
    pub location: Location,
    pub identifier: String,
}

/// The identifier of a filesystem root on the host `host`: `<host>:<path>`.
pub open spec fn host_identifier(host: Seq<char>, path: Seq<char>) -> Seq<char> {
    host + seq![':'] + path
}

/// The identifier that a root gets without an override: the location's own text for an
/// object store, the host-qualified path for a filesystem tree.
pub open spec fn derived_identifier(loc: Location, raw: Seq<char>, host: Seq<char>) -> Seq<char> {
    match loc {
        Location::ObjectStore { .. } => raw,
        Location::Filesystem { path } => host_identifier(host, path@),
    }
}

/// The identifier of a root: the override where one is given, the derived one otherwise.
pub open spec fn root_identifier(
    loc: Location,
    raw: Seq<char>,
    identifier: Option<Seq<char>>,
    host: Seq<char>,
) -> Seq<char> {
    match identifier {
        Some(i) => i,
        None => derived_identifier(loc, raw, host),
    }
}

/// The view of an optional string slice.
pub open spec fn opt_str_view(o: Option<&str>) -> Option<Seq<char>> {
    match o {
        Some(s) => Some(s@),
        None => None,
    }
}

/// Relies on `gethostname::gethostname`, read lossily as text. What it returns depends on
/// the machine, so nothing is stated of it.
#[verifier::external_body]
fn host_name() -> (r: String) {
    gethostname::gethostname().to_string_lossy().into_owned()
}

/// The identifier of a filesystem root at `path` on the host `host`.
pub fn identifier_with_host(host: &str, path: &str) -> (r: String)
    ensures
        r@ == host_identifier(host@, path@),
{
    let mut r = host.to_owned();
    r.append(":");
    r.append(path);
    proof {
        reveal_strlit(":");
    }
    r
}

/// The identifier of a filesystem root at `path` on this machine.
pub fn default_identifier(path: &str) -> (r: String)
    ensures
        exists|host: Seq<char>| r@ == host_identifier(host, path@),
{
    let host = host_name();
    identifier_with_host(host.as_str(), path)
}

impl Root {
    /// The root for the text `raw` on the host `host`, under `identifier` where one is given.
    pub fn with_host(raw: &str, identifier: Option<&str>, host: &str) -> (r: Root)
        ensures
            location_of(raw@, r.location),
            r.identifier@ == root_identifier(r.location, raw@, opt_str_view(identifier), host@),
    {
        let location = resolve_location(raw);
        let identifier = match identifier {
            Some(i) => i.to_owned(),
            None => match &location {
                Location::ObjectStore { .. } => raw.to_owned(),
                Location::Filesystem { path } => identifier_with_host(host, path.as_str()),
            },
        };
        Root { location, identifier }
    }

    /// The root for the text `raw` on this machine, under `identifier` where one is given.
    pub fn new(raw: &str, identifier: Option<&str>) -> (r: Root)
        ensures
            location_of(raw@, r.location),
            exists|host: Seq<char>|
                r.identifier@ == root_identifier(
                    r.location,
                    raw@,
                    opt_str_view(identifier),
                    host,
                ),
    {
        let host = host_name();
        Self::with_host(raw, identifier, host.as_str())
    }
}

/// The settings text that switches a flag on: `true`, `TRUE` or `1`.
pub open spec fn is_flag_on(s: Seq<char>) -> bool {
    s == seq!['t', 'r', 'u', 'e'] || s == seq!['T', 'R', 'U', 'E'] || s == seq!['1']
}

fn chars_are(s: &str, n: usize, a: char, b: char, c: char, d: char) -> (r: bool)
    requires
        n == s@.len(),
    ensures
        r == (s@ == seq![a, b, c, d]),
{
    if n != 4 {
        return false;
    }
    let r = s.get_char(0) == a && s.get_char(1) == b && s.get_char(2) == c && s.get_char(3) == d;
    if r {
        assert(s@ =~= seq![a, b, c, d]);
    }
    r
}

/// Whether a flag setting is on; an unset flag is off.
pub fn flag_setting(value: Option<&str>) -> (r: bool)
    ensures
        r == match value {
            Some(v) => is_flag_on(v@),
            None => false,
        },
{
    match value {
        None => false,
        Some(v) => {
            let n = v.unicode_len();
            let one = n == 1 && v.get_char(0) == '1';
            if one {
                assert(v@ =~= seq!['1']);
            } else if n == 1 {
                assert(v@ != seq!['1']) by {
                    if v@ == seq!['1'] {
                        assert(v@[0] == '1');
                    }
                }
            }
            one || chars_are(v, n, 't', 'r', 'u', 'e') || chars_are(v, n, 'T', 'R', 'U', 'E')
        },
    }
}

/// What to do after a page of a bucket listing has been written.
#[derive(Debug, PartialEq, Eq)]
pub enum ListingStep {
    /// Ask for the next page with this continuation cursor.
    Next(String),
    /// The listing is complete.
    Done,
}

/// Why a listing cannot go on.
#[derive(Debug, Clone, Copy, PartialEq, Eq, Structural)]
pub enum ListingError {
    /// The page did not say whether more pages follow.
    MissingTruncation,
    /// The page said that more pages follow but gave no cursor to ask for them.
    MissingCursor,
}

/// Decides, from a page's truncation flag and continuation cursor, whether the listing goes
/// on: with that cursor where the page is truncated, to its end where it is not.
pub fn after_page(is_truncated: Option<bool>, next_cursor: Option<String>) -> (r: Result<
    ListingStep,
    ListingError,
>)
    ensures
        is_truncated is None ==> r == Err::<ListingStep, ListingError>(
            ListingError::MissingTruncation,
        ),
        is_truncated == Some(false) ==> r == Ok::<ListingStep, ListingError>(ListingStep::Done),
        is_truncated == Some(true) && next_cursor is None ==> r == Err::<ListingStep, ListingError>(
            ListingError::MissingCursor,
        ),
        is_truncated == Some(true) && next_cursor is Some ==> (r matches Ok(ListingStep::Next(c))
            && c@ == next_cursor->0@),
{
    match is_truncated {
        None => Err(ListingError::MissingTruncation),
        Some(false) => Ok(ListingStep::Done),
        Some(true) => match next_cursor {
            Some(c) => Ok(ListingStep::Next(c)),
            None => Err(ListingError::MissingCursor),
        },
    }
}

/// The positions of the roots whose session failed, in order.
pub open spec fn failures(ok: Seq<bool>) -> Seq<int>
    decreases ok.len(),
{
    if ok.len() == 0 {
        Seq::empty()
    } else if ok.last() {
        failures(ok.drop_last())
    } else {
        failures(ok.drop_last()).push(ok.len() - 1)
    }
}

/// The positions of the roots whose session failed, given each root's outcome in order.
pub fn failed_roots(ok: &Vec<bool>) -> (r: Vec<usize>)
    ensures
        r@.map_values(|i: usize| i as int) == failures(ok@),
{
    let mut r: Vec<usize> = Vec::new();
    let mut i: usize = 0;
    while i < ok.len()
        invariant
            i <= ok@.len(),
            r@.map_values(|i: usize| i as int) == failures(ok@.take(i as int)),
        decreases ok@.len() - i,
    {
        let ghost before = r@;
        assert(ok@.take(i + 1).drop_last() =~= ok@.take(i as int));
        if !ok[i] {
            r.push(i);
            assert(r@.map_values(|i: usize| i as int) =~= before.map_values(|i: usize| i as int).push(
                i as int,
            ));
        }
        i = i + 1;
    }
    assert(ok@.take(i as int) =~= ok@);
    r
}

/// The run succeeds when every root's session succeeded.
pub fn run_succeeded(ok: &Vec<bool>) -> (r: bool)
    ensures
        r == forall|i: int| 0 <= i < ok@.len() ==> #[trigger] ok@[i],
{
    let mut i: usize = 0;
    while i < ok.len()
        invariant
            i <= ok@.len(),
            forall|j: int| 0 <= j < i ==> #[trigger] ok@[j],
        decreases ok@.len() - i,
    {
        if !ok[i] {
            return false;
        }
        i = i + 1;
    }
    true
}

proof fn lemma_failures_exact(ok: Seq<bool>)
    ensures
        forall|j: int| 0 <= j < ok.len() ==> (failures(ok).contains(j) <==> !#[trigger] ok[j]),
        forall|j: int| failures(ok).contains(j) ==> 0 <= j < ok.len(),
    decreases ok.len(),
{
    if ok.len() > 0 {
        let init = ok.drop_last();
        lemma_failures_exact(init);
        assert forall|j: int| 0 <= j < ok.len() implies (failures(ok).contains(j) <==> !#[trigger] ok[j]) by {
            if j < ok.len() - 1 {
                assert(init[j] == ok[j]);
                if !ok.last() {
                    if failures(ok).contains(j) {
                        let k = choose|k: int| 0 <= k < failures(ok).len() && failures(ok)[k] == j;
                        if k < failures(init).len() {
                            assert(failures(init)[k] == j);
                        }
                    }
                    if failures(init).contains(j) {
                        let k = choose|k: int| 0 <= k < failures(init).len() && failures(init)[k] == j;
                        assert(failures(ok)[k] == j);
                    }
                }
            } else if !ok.last() {
                assert(failures(ok)[failures(ok).len() - 1] == j);
            } else {
                if failures(ok).contains(j) {
                    assert(failures(init).contains(j));
                }
            }
        }
        assert forall|j: int| failures(ok).contains(j) implies 0 <= j < ok.len() by {
            let k = choose|k: int| 0 <= k < failures(ok).len() && failures(ok)[k] == j;
            if k < failures(init).len() {
                assert(failures(init)[k] == j);
                assert(failures(init).contains(j));
            }
        }
    }
}

/// One root's failure is attributed to that root alone: a root is reported as failed exactly
/// when its own session failed, and the run fails exactly when some root's session failed.
pub proof fn lemma_failure_isolation(ok: Seq<bool>)
    ensures
        forall|j: int| 0 <= j < ok.len() ==> (failures(ok).contains(j) <==> !#[trigger] ok[j]),
        forall|j: int| failures(ok).contains(j) ==> 0 <= j < ok.len(),
        (failures(ok).len() == 0) <==> (forall|j: int| 0 <= j < ok.len() ==> #[trigger] ok[j]),
{
    lemma_failures_exact(ok);
    if failures(ok).len() > 0 {
        let j = failures(ok)[0];
        assert(failures(ok).contains(j));
        assert(0 <= j < ok.len() && !ok[j]);
    } else {
        assert forall|j: int| 0 <= j < ok.len() implies #[trigger] ok[j] by {
            if !ok[j] {
                assert(failures(ok).contains(j));
            }
        }
    }
}

/// The values of the successes among `rs`, in order.
pub open spec fn oks<T, E>(rs: Seq<Result<T, E>>) -> Seq<T>
    decreases rs.len(),
{
    if rs.len() == 0 {
        Seq::empty()
    } else {
        match rs.last() {
            Ok(v) => oks(rs.drop_last()).push(v),
            Err(_) => oks(rs.drop_last()),
        }
    }
}

/// The errors among `rs`, in order.
pub open spec fn errs<T, E>(rs: Seq<Result<T, E>>) -> Seq<E>
    decreases rs.len(),
{
    if rs.len() == 0 {
        Seq::empty()
    } else {
        match rs.last() {
            Ok(_) => errs(rs.drop_last()),
            Err(e) => errs(rs.drop_last()).push(e),
        }
    }
}

/// Parts per-entry results into the successes, which go on, and the failures, which are
/// reported; both keep their order.
pub fn partition_results<T, E>(rs: Vec<Result<T, E>>) -> (r: (Vec<T>, Vec<E>))
    ensures
        r.0@ == oks(rs@),
        r.1@ == errs(rs@),
{
    let ghost orig = rs@;
    let n = rs.len();
    let mut rs = rs;
    let mut rev: Vec<Result<T, E>> = Vec::new();
    while rs.len() > 0
        invariant
            rs@.len() + rev@.len() == n,
            n == orig.len(),
            rs@ == orig.take(rs@.len() as int),
            forall|j: int| 0 <= j < rev@.len() ==> #[trigger] rev@[j] == orig[n - 1 - j],
        decreases rs@.len(),
    {
        let x = rs.pop().unwrap();
        rev.push(x);
        assert(rs@ =~= orig.take(rs@.len() as int));
    }
    let mut good: Vec<T> = Vec::new();
    let mut bad: Vec<E> = Vec::new();
    let mut k: usize = 0;
    while rev.len() > 0
        invariant
            rev@.len() + k == n,
            n == orig.len(),
            forall|j: int| 0 <= j < rev@.len() ==> #[trigger] rev@[j] == orig[n - 1 - j],
            good@ == oks(orig.take(k as int)),
            bad@ == errs(orig.take(k as int)),
        decreases rev@.len(),
    {
        let x = rev.pop().unwrap();
        assert(x == orig[k as int]);
        assert(orig.take(k + 1).drop_last() =~= orig.take(k as int));
        match x {
            Ok(v) => good.push(v),
            Err(e) => bad.push(e),
        }
        k = k + 1;
    }
    assert(orig.take(n as int) =~= orig);
    (good, bad)
}

} // verus!
