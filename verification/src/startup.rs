//! Start-up decisions: where the history database is opened, and which
//! manual engine overrides are taken.
use vstd::prelude::*;
use crate::logs::{lowercase, to_lowercase};
use crate::text::{str_eq, string_views};

verus! {

/// The database path that the command line names when none is given.
pub open spec fn default_history_db_path() -> Seq<char> {
    "/data/history.db"@
}

/// The path under which SQLite opens a database held in memory.
pub open spec fn memory_db_path() -> Seq<char> {
    ":memory:"@
}

/// The system-wide database path, used when its directory is writable.
pub open spec fn var_lib_db_path() -> Seq<char> {
    "/var/lib/spark-dashboard/history.db"@
}

/// The directory that must exist and be writable for `var_lib_db_path`.
pub open spec fn var_lib_db_dir() -> Seq<char> {
    "/var/lib/spark-dashboard"@
}

/// The database path in `/tmp`, always writable but not persistent.
pub open spec fn tmp_db_path() -> Seq<char> {
    "/tmp/spark-dashboard-history.db"@
}

/// Whether the requested path is an explicit choice, tried first and as is:
/// non-empty, and neither the default path nor `:memory:`.
pub open spec fn is_explicit_path(requested: Seq<char>) -> bool {
    requested.len() > 0 && requested != default_history_db_path() && requested != memory_db_path()
}

/// The paths tried, in order, once an explicit path has failed or when none
/// was given: `:memory:` alone when it was asked for; otherwise the
/// system-wide path (when its directory is usable), then `/tmp`, then
/// `:memory:`. The error of the last one is the error of the whole.
pub open spec fn fallback_paths(requested: Seq<char>, var_dir_usable: bool) -> Seq<Seq<char>> {
    if requested == memory_db_path() {
        seq![memory_db_path()]
    } else if var_dir_usable {
        seq![var_lib_db_path(), tmp_db_path(), memory_db_path()]
    } else {
        seq![tmp_db_path(), memory_db_path()]
    }
}

/// Every non-empty requested path other than the default and `:memory:` is
/// tried first as given (relative paths too), and no other path is.
pub proof fn lemma_explicit_paths(requested: Seq<char>)
    ensures
        (requested.len() > 0 && requested != "/data/history.db"@ && requested != ":memory:"@)
            <==> is_explicit_path(requested),
{
}

/// For any requested path but `:memory:` the fallbacks end with `/tmp` and
/// then `:memory:`, with the system-wide path first exactly when its
/// directory is usable; `:memory:` falls back to nothing but itself.
pub proof fn lemma_fallback_order(requested: Seq<char>, var_dir_usable: bool)
    ensures
        requested != ":memory:"@ ==> fallback_paths(requested, var_dir_usable) == (if var_dir_usable {
            seq!["/var/lib/spark-dashboard/history.db"@]
        } else {
            Seq::<Seq<char>>::empty()
        }) + seq!["/tmp/spark-dashboard-history.db"@, ":memory:"@],
        requested == ":memory:"@ ==> fallback_paths(requested, var_dir_usable) == seq![":memory:"@],
{
    let tail = seq!["/tmp/spark-dashboard-history.db"@, ":memory:"@];
    if var_dir_usable {
        assert(seq!["/var/lib/spark-dashboard/history.db"@] + tail =~= seq![
            "/var/lib/spark-dashboard/history.db"@,
            "/tmp/spark-dashboard-history.db"@,
            ":memory:"@,
        ]);
    } else {
        assert(Seq::<Seq<char>>::empty() + tail =~= tail);
    }
}

/// An override's kind depends only on the lowercase of its name: it is the
/// vLLM engine exactly when that lowercase is `vllm`, so names that differ
/// only in case select the same kind.
pub proof fn lemma_engine_kind_by_lowercase(n1: Seq<char>, n2: Seq<char>)
    ensures
        engine_kind_named(n1) is Some <==> lowercase(n1) == "vllm"@,
        engine_kind_named(n1) matches Some(k) ==> k is Vllm,
        lowercase(n1) == lowercase(n2) ==> engine_kind_named(n1) == engine_kind_named(n2),
{
}

/// The directory whose usability decides whether the system-wide path is tried.
pub fn var_lib_dir() -> (r: &'static str)
    ensures
        r@ == var_lib_db_dir(),
{
    "/var/lib/spark-dashboard"
}

/// Whether `requested` is tried first, as given (see `is_explicit_path`).
pub fn is_explicit_history_db_path(requested: &str) -> (r: bool)
    ensures
        r == is_explicit_path(requested@),
{
    !requested.is_empty() && !str_eq(requested, "/data/history.db") && !str_eq(requested, ":memory:")
}

/// The paths to try after the explicit one (see `fallback_paths`).
pub fn history_db_fallbacks(requested: &str, var_dir_usable: bool) -> (r: Vec<String>)
    ensures
        string_views(r@) == fallback_paths(requested@, var_dir_usable),
{
    let mut r: Vec<String> = Vec::new();
    if str_eq(requested, ":memory:") {
        r.push(":memory:".to_owned());
    } else {
        if var_dir_usable {
            r.push("/var/lib/spark-dashboard/history.db".to_owned());
        }
        r.push("/tmp/spark-dashboard-history.db".to_owned());
        r.push(":memory:".to_owned());
    }
    assert(string_views(r@) =~= fallback_paths(requested@, var_dir_usable));
    r
}

/// The engine kinds that a manual override can name.
#[derive(Clone, Copy, Debug)]
pub enum EngineKind {
    Vllm,
}

/// The engine kind that an override's type name selects: the name is
/// compared in lowercase, and only `vllm` is known.
pub open spec fn engine_kind_named(name: Seq<char>) -> Option<EngineKind> {
    if lowercase(name) == "vllm"@ {
        Some(EngineKind::Vllm)
    } else {
        None
    }
}

/// The kind of each manual override: `--engine` names are paired by
/// position with `--engine-url` values (extra values on either side are
/// ignored); a pair whose name is not known gets `None` and is skipped.
pub fn engine_override_kinds(engines: &Vec<String>, urls: &Vec<String>) -> (r: Vec<Option<EngineKind>>)
    ensures
        r@.len() == (if engines@.len() <= urls@.len() { engines@.len() } else { urls@.len() }),
        forall|i: int| 0 <= i < r@.len() ==> #[trigger] r@[i] == engine_kind_named(engines@[i]@),
{
    let n = if engines.len() <= urls.len() { engines.len() } else { urls.len() };
    let mut r: Vec<Option<EngineKind>> = Vec::new();
    let mut i: usize = 0;
    while i < n
        invariant
            n <= engines@.len(),
            i <= n,
            r@.len() == i,
            forall|j: int| 0 <= j < i ==> #[trigger] r@[j] == engine_kind_named(engines@[j]@),
        decreases n - i,
    {
        let lower = to_lowercase(engines[i].as_str());
        if str_eq(lower.as_str(), "vllm") {
            r.push(Some(EngineKind::Vllm));
        } else {
            r.push(None);
        }
        i = i + 1;
    }
    r
}

} // verus!
