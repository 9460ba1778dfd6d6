//! The table of level names as text, for a file beside the WAD.
//!
//! The text is a JSON object with one member for each level, the
//! identifier as the key and the display name as the value, both decoded
//! as UTF-8. Where two identifiers decode to the same text, the later one
//! of the table stands.

use vstd::prelude::*;
use std::collections::BTreeMap;
use vstd::string::StringExecFns;
use crate::launcher::failure_message;
use crate::table::{utf8_lossy, LevelNameTable};

verus! {

#[verifier::external_type_specification]
#[verifier::external_body]
pub struct ExJsonError(serde_json::Error);

/// The pretty-printed JSON object that has one member for each pair, key
/// and value as JSON strings, the members in the order of their keys.
pub uninterp spec fn pretty_json(pairs: Seq<(Seq<char>, Seq<char>)>) -> Seq<char>;

/// The texts of a list of pairs of strings.
pub open spec fn texts(pairs: Seq<(String, String)>) -> Seq<(Seq<char>, Seq<char>)> {
    Seq::new(pairs.len(), |i: int| (pairs[i].0@, pairs[i].1@))
}

/// Writes pairs of texts as one JSON object, pretty-printed, with
/// `serde_json::to_string_pretty` on an ordered map of the pairs. Two
/// things are claimed. The call succeeds: it writes into a vector, and the
/// keys are strings, so neither cause of failure that serde_json knows can
/// occur. And the text is a function of the pairs alone, which the
/// contract names: the map is walked in the order of its keys.
#[verifier::external_body]
fn to_json_pretty(pairs: &Vec<(String, String)>) -> (r: Result<String, serde_json::Error>)
    ensures
        r is Ok,
        r->Ok_0@ == pretty_json(texts(pairs@)),
{
    let map: BTreeMap<&str, &str> = pairs.iter().map(|p| (p.0.as_str(), p.1.as_str())).collect();
    serde_json::to_string_pretty(&map)
}

/// The text of a serialisation error, by its `Display`. Nothing is claimed
/// of the text.
#[verifier::external_body]
fn error_text(e: &serde_json::Error) -> String {
    e.to_string()
}

/// Whether the key of the pair at `i` is also the key of a later pair.
pub open spec fn key_recurs(pairs: Seq<(Seq<char>, Seq<char>)>, i: int) -> bool {
    exists|j: int| i < j < pairs.len() && (#[trigger] pairs[j]).0 == pairs[i].0
}

/// The indices below `n` of the pairs whose key no later pair has, in
/// increasing order.
pub open spec fn kept(pairs: Seq<(Seq<char>, Seq<char>)>, n: int) -> Seq<int>
    decreases n,
{
    if n <= 0 {
        Seq::empty()
    } else if key_recurs(pairs, n - 1) {
        kept(pairs, n - 1)
    } else {
        kept(pairs, n - 1).push(n - 1)
    }
}

/// The pairs at the given indices.
pub open spec fn picked(pairs: Seq<(Seq<char>, Seq<char>)>, indices: Seq<int>) -> Seq<
    (Seq<char>, Seq<char>),
> {
    Seq::new(indices.len(), |m: int| pairs[indices[m]])
}

/// For each key the last pair that has it, in the order of the pairs.
pub open spec fn last_of_each(pairs: Seq<(Seq<char>, Seq<char>)>) -> Seq<(Seq<char>, Seq<char>)> {
    picked(pairs, kept(pairs, pairs.len() as int))
}

/// Whether no key occurs twice among `pairs`.
pub open spec fn distinct_keys(pairs: Seq<(Seq<char>, Seq<char>)>) -> bool {
    forall|a: int, b: int|
        0 <= a < pairs.len() && 0 <= b < pairs.len() && a != b ==> (#[trigger] pairs[a]).0 != (
        #[trigger] pairs[b]).0
}

/// The identifiers and names of a table as text.
pub open spec fn decoded(pairs: Seq<(Seq<u8>, Seq<u8>)>) -> Seq<(Seq<char>, Seq<char>)> {
    Seq::new(pairs.len(), |i: int| (utf8_lossy(pairs[i].0), utf8_lossy(pairs[i].1)))
}

/// The JSON text of a table with these pairs.
pub open spec fn json_of(pairs: Seq<(Seq<u8>, Seq<u8>)>) -> Seq<char> {
    pretty_json(last_of_each(decoded(pairs)))
}

/// What the failure to serialise is reported as.
pub open spec fn serialize_failure() -> Seq<char> {
    "Failed to serialize level names"@
}

/// What `kept` holds: indices below `n`, increasing, of pairs whose key no
/// later pair has.
pub proof fn lemma_kept(pairs: Seq<(Seq<char>, Seq<char>)>, n: int)
    requires
        0 <= n <= pairs.len(),
    ensures
        forall|m: int|
            0 <= m < kept(pairs, n).len() ==> 0 <= (#[trigger] kept(pairs, n)[m]) < n
                && !key_recurs(pairs, kept(pairs, n)[m]),
        forall|a: int, b: int|
            0 <= a < b < kept(pairs, n).len() ==> kept(pairs, n)[a] < kept(pairs, n)[b],
    decreases n,
{
    if n > 0 {
        lemma_kept(pairs, n - 1);
        let before = kept(pairs, n - 1);
        let now = kept(pairs, n);
        if !key_recurs(pairs, n - 1) {
            assert(now == before.push(n - 1));
            assert forall|m: int| 0 <= m < now.len() implies 0 <= (#[trigger] now[m]) < n
                && !key_recurs(pairs, now[m]) by {
                if m < before.len() {
                    assert(now[m] == before[m]);
                }
            }
            assert forall|a: int, b: int| 0 <= a < b < now.len() implies now[a] < now[b] by {
                assert(now[a] == before[a]);
                if b < before.len() {
                    assert(now[b] == before[b]);
                }
            }
        } else {
            assert(now == before);
        }
    }
}

/// No key occurs twice among the last pairs of each key.
pub proof fn lemma_last_of_each_distinct(pairs: Seq<(Seq<char>, Seq<char>)>)
    ensures
        distinct_keys(last_of_each(pairs)),
{
    let k = kept(pairs, pairs.len() as int);
    let out = last_of_each(pairs);
    lemma_kept(pairs, pairs.len() as int);
    assert forall|a: int, b: int|
        0 <= a < out.len() && 0 <= b < out.len() && a != b implies (#[trigger] out[a]).0 != (
    #[trigger] out[b]).0 by {
        let lo = if a < b {
            a
        } else {
            b
        };
        let hi = if a < b {
            b
        } else {
            a
        };
        assert(k[lo] < k[hi]);
        assert(!key_recurs(pairs, k[lo]));
        if out[a].0 == out[b].0 {
            assert(pairs[k[hi]].0 == pairs[k[lo]].0);
        }
    }
}

/// Whether the key of the pair at `i` is also the key of a later pair.
pub fn recurs_later(pairs: &Vec<(String, String)>, i: usize) -> (r: bool)
    requires
        i < pairs.len(),
    ensures
        r == key_recurs(texts(pairs@), i as int),
{
    let mut j: usize = i + 1;
    while j < pairs.len()
        invariant
            i < j <= pairs@.len(),
            forall|m: int| i < m < j ==> (#[trigger] texts(pairs@)[m]).0 != texts(pairs@)[i as int].0,
        decreases pairs@.len() - j,
    {
        if pairs[j].0 == pairs[i].0 {
            assert(texts(pairs@)[j as int].0 == texts(pairs@)[i as int].0);
            return true;
        }
        j += 1;
    }
    false
}

/// Keeps, for each key, the last pair that has it, in the order of the
/// pairs.
pub fn keep_last_of_each(pairs: &Vec<(String, String)>) -> (r: Vec<(String, String)>)
    ensures
        texts(r@) == last_of_each(texts(pairs@)),
        distinct_keys(texts(r@)),
{
    let mut out: Vec<(String, String)> = Vec::new();
    let mut i: usize = 0;
    assert(texts(out@) =~= picked(texts(pairs@), kept(texts(pairs@), 0)));
    while i < pairs.len()
        invariant
            i <= pairs@.len(),
            texts(out@) == picked(texts(pairs@), kept(texts(pairs@), i as int)),
        decreases pairs@.len() - i,
    {
        let ghost all = texts(pairs@);
        let ghost before = texts(out@);
        if !recurs_later(pairs, i) {
            let key: String = pairs[i].0.clone();
            let value: String = pairs[i].1.clone();
            out.push((key, value));
            proof {
                assert(kept(all, i + 1) == kept(all, i as int).push(i as int));
                assert(texts(out@) =~= before.push(all[i as int]));
                assert(before.push(all[i as int]) =~= picked(all, kept(all, i + 1)));
            }
        } else {
            assert(kept(all, i + 1) == kept(all, i as int));
        }
        i += 1;
    }
    proof {
        lemma_last_of_each_distinct(texts(pairs@));
    }
    out
}

/// The outcome of a serialisation, with the error as a message: the text
/// as it is, or a message that starts by saying what failed.
pub fn json_outcome(r: Result<String, serde_json::Error>) -> (out: Result<String, String>)
    ensures
        match r {
            Ok(text) => out == Ok::<String, String>(text),
            Err(_) => out matches Err(message) && exists|detail: Seq<char>|
                message@ == serialize_failure() + ": "@ + detail,
        },
{
    match r {
        Ok(text) => Ok(text),
        Err(e) => {
            let detail = error_text(&e);
            let message = failure_message("Failed to serialize level names", detail.as_str());
            assert(message@ == serialize_failure() + ": "@ + detail@);
            Err(message)
        },
    }
}

/// The message for a file of level names that could not be written: what
/// failed and the detail that the failure came with.
pub fn write_failure(detail: &str) -> (r: String)
    ensures
        r@ == "Failed to write level names file: "@ + detail@,
{
    String::from_str("Failed to write level names file: ").concat(detail)
}

/// The table as a pretty-printed JSON object from level identifier to
/// display name, the members in the order of their keys. It succeeds on
/// every table.
pub fn level_names_json(table: &LevelNameTable) -> (out: Result<String, String>)
    requires
        table.wf(),
    ensures
        out matches Ok(text) && text@ == json_of(table.pairs()),
{
    let pairs = table.to_strings();
    assert(texts(pairs@) =~= decoded(table.pairs()));
    let unique = keep_last_of_each(&pairs);
    json_outcome(to_json_pretty(&unique))
}

} // verus!
