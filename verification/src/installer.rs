//! Decisions of the installer: the configuration file it writes and the
//! client version folder it installs into.

use vstd::prelude::*;
use crate::text::{
    chars_of, contains, lemma_lex_less_asymmetric, occurs_at, lemma_lex_less_total, lemma_lex_less_transitive, lex_less,
    starts_with, str_starts_with, vec_lex_less,
};

verus! {

/// The configuration file written for the proxy the user typed.
pub open spec fn config_file_text(proxy: Seq<char>) -> Seq<char> {
    "[proxy]\nmain = \""@ + proxy
        + "\"\nfallback = \"http://127.0.0.1:10808\"\n\n# Rules are now optional, global proxying is enabled by default\n"@
}

/// Builds the configuration file for a proxy address.
pub fn installer_config_text(proxy: &str) -> (text: String)
    ensures
        text@ == config_file_text(proxy@),
{
    let mut text = "[proxy]\nmain = \"".to_owned();
    text.append(proxy);
    text.append(
        "\"\nfallback = \"http://127.0.0.1:10808\"\n\n# Rules are now optional, global proxying is enabled by default\n",
    );
    text
}

/// A folder of one client version.
pub open spec fn is_app_folder(name: Seq<char>) -> bool {
    starts_with(name, "app-"@)
}

/// `best` names the folder to install into: a version folder whose name sorts
/// last, the first such one when names repeat.
pub open spec fn is_latest_app_folder(names: Seq<String>, best: int) -> bool {
    &&& 0 <= best < names.len()
    &&& is_app_folder(names[best]@)
    &&& forall|j: int| 0 <= j < names.len() && is_app_folder(#[trigger] names[j]@)
        ==> !lex_less(names[best]@, names[j]@)
    &&& forall|j: int| 0 <= j < best && is_app_folder(#[trigger] names[j]@)
        ==> lex_less(names[j]@, names[best]@)
}

/// Picks the client version folder to install into among the folder names
/// found; `None` when no name starts with `app-`.
pub fn select_latest_app_folder(names: &Vec<String>) -> (best: Option<usize>)
    ensures
        best matches Some(b) ==> is_latest_app_folder(names@, b as int),
        best is None <==> forall|j: int| 0 <= j < names@.len() ==> !is_app_folder(#[trigger] names@[j]@),
{
    let mut best: Option<usize> = None;
    let mut best_chars: Vec<char> = Vec::new();
    let mut i: usize = 0;
    while i < names.len()
        invariant
            i <= names@.len(),
            best is None ==> forall|j: int| 0 <= j < i ==> !is_app_folder(#[trigger] names@[j]@),
            best matches Some(b) ==> {
                &&& b < i
                &&& best_chars@ == names@[b as int]@
                &&& is_app_folder(names@[b as int]@)
                &&& forall|j: int| 0 <= j < i && is_app_folder(#[trigger] names@[j]@)
                    ==> !lex_less(names@[b as int]@, names@[j]@)
                &&& forall|j: int| 0 <= j < b && is_app_folder(#[trigger] names@[j]@)
                    ==> lex_less(names@[j]@, names@[b as int]@)
            },
        decreases names.len() - i,
    {
        let name = chars_of(names[i].as_str());
        if str_starts_with(names[i].as_str(), "app-") {
            match best {
                None => {
                    proof {
                        lemma_lex_less_asymmetric(name@, name@);
                    }
                    best = Some(i);
                    best_chars = name;
                },
                Some(b) => {
                    if vec_lex_less(&best_chars, &name) {
                        proof {
                            assert forall|j: int| 0 <= j < i + 1 && is_app_folder(#[trigger] names@[j]@)
                                implies !lex_less(name@, names@[j]@) && (j < i ==> lex_less(names@[j]@, name@)) by {
                                if j < i {
                                    lemma_lex_less_total(names@[j]@, names@[b as int]@);
                                    if names@[j]@ != names@[b as int]@ && !lex_less(names@[j]@, names@[b as int]@) {
                                        assert(lex_less(names@[b as int]@, names@[j]@));
                                    }
                                    if lex_less(names@[j]@, names@[b as int]@) {
                                        lemma_lex_less_transitive(names@[j]@, names@[b as int]@, name@);
                                    }
                                    lemma_lex_less_asymmetric(names@[j]@, name@);
                                } else {
                                    lemma_lex_less_asymmetric(name@, name@);
                                }
                            }
                        }
                        best = Some(i);
                        best_chars = name;
                    }
                },
            }
        }
        i = i + 1;
    }
    best
}

/// The folder picked sorts no earlier than any other version folder.
pub proof fn lemma_latest_is_maximal(names: Seq<String>, best: int, other: int)
    requires
        is_latest_app_folder(names, best),
        0 <= other < names.len(),
        is_app_folder(names[other]@),
    ensures
        names[other]@ == names[best]@ || lex_less(names[other]@, names[best]@),
{
    lemma_lex_less_total(names[other]@, names[best]@);
}

/// The configuration written for a typed proxy `p` is `[proxy]`, the line
/// `main = "p"`, the fixed line `fallback = "http://127.0.0.1:10808"`, and
/// a comment; only the `main` line depends on `p`.
pub proof fn lemma_config_text_shape(p: Seq<char>, q: Seq<char>)
    ensures
        ({
            let head = "[proxy]\nmain = \""@;
            let tail = "\"\nfallback = \"http://127.0.0.1:10808\"\n\n# Rules are now optional, global proxying is enabled by default\n"@;
            &&& config_file_text(p) == head + p + tail
            &&& config_file_text(p).skip(head.len() + p.len() as int) == config_file_text(q).skip(head.len() + q.len() as int)
            &&& config_file_text(p).take(head.len() as int) == config_file_text(q).take(head.len() as int)
        }),
        contains(config_file_text(p), "fallback = \"http://127.0.0.1:10808\"\n"@),
{
    reveal_strlit("\"\nfallback = \"http://127.0.0.1:10808\"\n\n# Rules are now optional, global proxying is enabled by default\n");
    reveal_strlit("fallback = \"http://127.0.0.1:10808\"\n");
    reveal_strlit("[proxy]\nmain = \"");
    let head = "[proxy]\nmain = \""@;
    let tail = "\"\nfallback = \"http://127.0.0.1:10808\"\n\n# Rules are now optional, global proxying is enabled by default\n"@;
    let line = "fallback = \"http://127.0.0.1:10808\"\n"@;
    let t = config_file_text(p);
    assert(t.skip(head.len() + p.len() as int) =~= tail);
    assert(config_file_text(q).skip(head.len() + q.len() as int) =~= tail);
    assert(t.take(head.len() as int) =~= head);
    assert(config_file_text(q).take(head.len() as int) =~= head);
    let i: int = head.len() + p.len() + 2int;
    assert(t.subrange(i, i + line.len()) =~= line);
    assert(occurs_at(t, line, i));
}

} // verus!
