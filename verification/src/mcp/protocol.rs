//! Versions of the protocol.

use vstd::prelude::*;
use crate::text::{opt_text, same, texts};

verus! {

/// The version without a session that is established first.
pub open spec fn modern() -> Seq<char> {
    "2026-07-28"@
}

/// Whether a version is that without a session.
pub fn is_modern(version: &str) -> (r: bool)
    ensures
        r == (version@ == modern()),
{
    same(version, "2026-07-28")
}

/// Whether a version is a known one.
pub open spec fn known_version(version: Seq<char>) -> bool {
    version == "2024-11-05"@ || version == "2025-03-26"@ || version == "2025-06-18"@ || version
        == "2025-11-25"@ || version == modern()
}

/// Whether a version is a known one.
pub fn is_known_version(version: &str) -> (r: bool)
    ensures
        r == known_version(version@),
{
    same(version, "2024-11-05") || same(version, "2025-03-26") || same(version, "2025-06-18")
        || same(version, "2025-11-25") || is_modern(version)
}

/// The first version with a session, from one of them on.
pub open spec fn first_legacy(versions: Seq<Seq<char>>, from: nat) -> Option<Seq<char>>
    decreases versions.len() - from,
{
    if from >= versions.len() {
        None
    } else if versions[from as int] != modern() {
        Some(versions[from as int])
    } else {
        first_legacy(versions, from + 1)
    }
}

/// Finds the first version with a session.
pub fn find_legacy(versions: &Vec<String>) -> (r: Option<String>)
    ensures
        opt_text(r) == first_legacy(texts(versions@), 0),
{
    let ghost all = texts(versions@);
    let mut i: usize = 0;
    while i < versions.len()
        invariant
            i <= versions@.len(),
            all == texts(versions@),
            first_legacy(all, i as nat) == first_legacy(all, 0),
        decreases versions.len() - i,
    {
        assert(all[i as int] == versions@[i as int]@);
        if !is_modern(versions[i].as_str()) {
            return Some(versions[i].clone());
        }
        i += 1;
    }
    None
}

/// The version that a server says it has.
pub open spec fn told_version(versions: Seq<Seq<char>>) -> Seq<char> {
    match first_legacy(versions, 0) {
        Some(version) => version,
        None => modern(),
    }
}

/// Gives the version that a server says it has.
pub fn info_version(versions: &Vec<String>) -> (r: String)
    ensures
        r@ == told_version(texts(versions@)),
{
    match find_legacy(versions) {
        Some(version) => version,
        None => "2026-07-28".to_string(),
    }
}

/// The version that a server and a client agree on: the one that the client asks for
/// where the server has it; the first one of the server where the client asks for an
/// unknown one; and none otherwise. The version without a session is never agreed on.
pub open spec fn agreed(versions: Seq<Seq<char>>, requested: Seq<char>) -> Option<Seq<char>> {
    if requested != modern() && versions.contains(requested) {
        Some(requested)
    } else if known_version(requested) {
        None
    } else {
        first_legacy(versions, 0)
    }
}

/// Agrees on a version.
pub fn negotiate(versions: &Vec<String>, requested: &str) -> (r: Option<String>)
    ensures
        opt_text(r) == agreed(texts(versions@), requested@),
{
    if !is_modern(requested) && crate::cli::tree::holds_text(versions, requested) {
        return Some(requested.to_string());
    }
    if is_known_version(requested) {
        return None;
    }
    find_legacy(versions)
}

/// How a client begins.
#[derive(Debug, Clone)]
pub enum Lifecycle {
    /// By a session.
    Initialize,
    /// Without a session.
    Discover,
    /// Without a session, and by one where the server needs it.
    Auto {
        /// The version of the session.
        legacy_version: String,
    },
}

/// Decides how a client begins that accepts the given versions.
pub fn choose_lifecycle(versions: &Vec<String>) -> (r: Lifecycle)
    ensures
        match first_legacy(texts(versions@), 0) {
            None => if texts(versions@).contains(modern()) {
                r is Discover
            } else {
                r is Initialize
            },
            Some(version) => if texts(versions@).contains(modern()) {
                r matches Lifecycle::Auto { legacy_version } && legacy_version@ == version
            } else {
                r is Initialize
            },
        },
{
    if !crate::cli::tree::holds_text(versions, "2026-07-28") {
        return Lifecycle::Initialize;
    }
    match find_legacy(versions) {
        None => Lifecycle::Discover,
        Some(legacy_version) => Lifecycle::Auto { legacy_version },
    }
}

/// A version that is agreed on is one of the server's, and has a session.
pub proof fn law_agreed_version_is_served(versions: Seq<Seq<char>>, requested: Seq<char>)
    ensures
        agreed(versions, requested) matches Some(version) ==> versions.contains(version)
            && version != modern(),
{
    lemma_first_legacy(versions, 0);
}

proof fn lemma_first_legacy(versions: Seq<Seq<char>>, from: nat)
    ensures
        first_legacy(versions, from) matches Some(version) ==> versions.contains(version)
            && version != modern(),
    decreases versions.len() - from,
{
    if from < versions.len() && versions[from as int] == modern() {
        lemma_first_legacy(versions, from + 1);
    }
}

/// A legacy version that is served is agreed to as it was asked for; for one that nobody
/// knows the first legacy version is offered, and a known one that is not served is
/// refused.
pub proof fn law_served_versions_are_agreed_to(versions: Seq<Seq<char>>, requested: Seq<char>)
    ensures
        requested != "2026-07-28"@ && versions.contains(requested) ==> agreed(versions, requested)
            == Some(requested),
        requested == "2026-07-28"@ ==> agreed(versions, requested) is None,
        !versions.contains(requested) && (requested == "2024-11-05"@ || requested == "2025-03-26"@
            || requested == "2025-06-18"@ || requested == "2025-11-25"@) ==> agreed(
            versions,
            requested,
        ) is None,
{
}

/// The version that is told is the first legacy one that is served, or else the modern
/// one.
pub proof fn law_first_legacy_version_is_told(versions: Seq<Seq<char>>, from: nat)
    ensures
        first_legacy(versions, from) matches Some(version) ==> exists|i: int|
            from <= i < versions.len() && #[trigger] versions[i] == version && version
                != "2026-07-28"@ && (forall|j: int|
                from <= j < i ==> #[trigger] versions[j] == "2026-07-28"@),
        first_legacy(versions, from) is None ==> forall|j: int|
            from <= j < versions.len() ==> #[trigger] versions[j] == "2026-07-28"@,
        first_legacy(versions, 0) is None ==> told_version(versions) == "2026-07-28"@,
        first_legacy(versions, 0) matches Some(version) ==> told_version(versions) == version,
    decreases versions.len() - from,
{
    if from < versions.len() {
        if versions[from as int] == modern() {
            law_first_legacy_version_is_told(versions, from + 1);
            if let Some(version) = first_legacy(versions, from) {
                let i = choose|i: int|
                    from + 1 <= i < versions.len() && #[trigger] versions[i] == version && version
                        != "2026-07-28"@ && (forall|j: int|
                        from + 1 <= j < i ==> #[trigger] versions[j] == "2026-07-28"@);
                assert(versions[i] == version);
            }
        } else {
            assert(versions[from as int] == versions[from as int]);
        }
    }
}

} // verus!
