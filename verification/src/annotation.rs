//! What `annotate` records on an assignment: a current-work summary, a
//! lifecycle state, a working directory and extension metadata.
use vstd::prelude::*;

use crate::activity::ActivityState;
use crate::cli::AnnotateArgs;
use crate::error::RegistryError;
use crate::naming::string_views;
use crate::registry::{Assignment, Extension, Summary};
use crate::text::{
    chars_between, chars_of, owned, push_chars, split_words, string_of, trim,
    trim_range, trimmed_chars, views, words,
};
use crate::timestamp::Timestamp;

verus! {

broadcast use vstd::string::group_string_axioms;

// ---------------------------------------------------------------------
// Summaries
// ---------------------------------------------------------------------

/// Words joined by single spaces.
pub open spec fn joined_words(ws: Seq<Seq<char>>) -> Seq<char>
    decreases ws.len(),
{
    if ws.len() == 0 {
        Seq::empty()
    } else if ws.len() == 1 {
        ws[0]
    } else {
        joined_words(ws.drop_last()) + seq![' '] + ws.last()
    }
}

/// A summary as it is stored: the words of the text joined by single spaces.
pub open spec fn summary_text(text: Seq<char>) -> Seq<char> {
    joined_words(words(text))
}

/// The words of `text` joined by single spaces.
pub fn collapse_whitespace(text: &str) -> (r: String)
    ensures
        r@ == summary_text(text@),
{
    let ws = split_words(&chars_of(text));
    let mut r = String::new();
    let mut i: usize = 0;
    while i < ws.len()
        invariant
            i <= ws.len(),
            r@ == joined_words(views(ws@).take(i as int)),
        decreases ws.len() - i,
    {
        let ghost before = views(ws@).take(i as int);
        let ghost after = views(ws@).take(i + 1);
        assert(after.drop_last() =~= before);
        assert(after.last() == ws@[i as int]@);
        if i > 0 {
            push_chars(&mut r, &vec![' ']);
        } else {
            assert(before.len() == 0);
        }
        push_chars(&mut r, &ws[i]);
        i += 1;
    }
    assert(views(ws@).take(ws.len() as int) =~= views(ws@));
    r
}

// ---------------------------------------------------------------------
// Extensions
// ---------------------------------------------------------------------

/// The JSON documents that `serde_json` accepts.
pub uninterp spec fn json_accepts(text: Seq<char>) -> bool;

/// `serde_json::from_str::<serde_json::Value>(text).is_ok()`: the contract
/// claims only that the answer is the one named `json_accepts` for the text.
#[verifier::external_body]
fn is_json(text: &str) -> (r: bool)
    ensures
        r == json_accepts(text@),
{
    serde_json::from_str::<serde_json::Value>(text).is_ok()
}

/// The position of the first `=` in `a`.
pub open spec fn first_equals(a: Seq<char>) -> Option<nat>
    decreases a.len(),
{
    if a.len() == 0 {
        None
    } else if a[0] == '=' {
        Some(0)
    } else {
        match first_equals(a.drop_first()) {
            Some(i) => Some(i + 1),
            None => None,
        }
    }
}

/// The owner and JSON document of an `OWNER=JSON` argument, split at the
/// first `=` and trimmed, when the owner is not blank and the document is
/// JSON.
pub open spec fn extension_parts(a: Seq<char>) -> Option<(Seq<char>, Seq<char>)> {
    match first_equals(a) {
        Some(i) => {
            let owner = trim(a.take(i as int));
            let json = trim(a.skip(i as int + 1));
            if owner.len() > 0 && json_accepts(json) {
                Some((owner, json))
            } else {
                None
            }
        },
        None => None,
    }
}

fn find_equals(v: &Vec<char>) -> (r: Option<usize>)
    ensures
        r matches Some(i) ==> first_equals(v@) == Some(i as nat) && i < v.len(),
        r is None ==> first_equals(v@) is None,
{
    let mut i: usize = 0;
    assert(v@.skip(0) =~= v@);
    while i < v.len()
        invariant
            i <= v.len(),
            first_equals(v@) == (match first_equals(v@.skip(i as int)) {
                Some(k) => Some((k + i) as nat),
                None => None,
            }),
        decreases v.len() - i,
    {
        assert(v@.skip(i as int)[0] == v@[i as int]);
        if v[i] == '=' {
            return Some(i);
        }
        assert(v@.skip(i as int).drop_first() =~= v@.skip(i + 1));
        i += 1;
    }
    assert(v@.skip(i as int).len() == 0);
    None
}

/// The owner and document of an `OWNER=JSON` argument.
pub fn parse_extension(argument: &str) -> (r: Option<(String, String)>)
    ensures
        r matches Some(p) ==> extension_parts(argument@) == Some((p.0@, p.1@)),
        r is None ==> extension_parts(argument@) is None,
{
    let v = chars_of(argument);
    let i = match find_equals(&v) {
        Some(i) => i,
        None => return None,
    };
    let (a, b) = trim_range(&v, 0, i);
    let (c, d) = trim_range(&v, i + 1, v.len());
    assert(v@.subrange(0, i as int) =~= v@.take(i as int));
    assert(v@.subrange(i + 1, v.len() as int) =~= v@.skip(i + 1));
    if a == b {
        return None;
    }
    let owner = string_of(&chars_between(&v, a, b));
    let json = string_of(&chars_between(&v, c, d));
    if !is_json(json.as_str()) {
        return None;
    }
    Some((owner, json))
}

/// The metadata held by a list of extensions: each owner's document, a later
/// entry replacing an earlier one of the same owner.
pub open spec fn extension_map(exts: Seq<Extension>) -> Map<Seq<char>, Seq<char>>
    decreases exts.len(),
{
    if exts.len() == 0 {
        Map::empty()
    } else {
        extension_map(exts.drop_last()).insert(exts.last().owner@, exts.last().json@)
    }
}

/// `m` without the owners named, trimmed, in `owners`.
pub open spec fn cleared_owners(m: Map<Seq<char>, Seq<char>>, owners: Seq<Seq<char>>) -> Map<
    Seq<char>,
    Seq<char>,
>
    decreases owners.len(),
{
    if owners.len() == 0 {
        m
    } else {
        cleared_owners(m, owners.drop_last()).remove(trim(owners.last()))
    }
}

/// `m` with the documents of valid `OWNER=JSON` arguments set, in order.
pub open spec fn set_owners(m: Map<Seq<char>, Seq<char>>, arguments: Seq<Seq<char>>) -> Map<
    Seq<char>,
    Seq<char>,
>
    decreases arguments.len(),
{
    if arguments.len() == 0 {
        m
    } else {
        let prev = set_owners(m, arguments.drop_last());
        match extension_parts(arguments.last()) {
            Some(p) => prev.insert(p.0, p.1),
            None => prev,
        }
    }
}

/// The entries of `exts` that do not belong to `owner`.
pub open spec fn without_owner(exts: Seq<Extension>, owner: Seq<char>) -> Seq<Extension>
    decreases exts.len(),
{
    if exts.len() == 0 {
        exts
    } else {
        let p = without_owner(exts.drop_last(), owner);
        if exts.last().owner@ != owner {
            p.push(exts.last())
        } else {
            p
        }
    }
}

proof fn lemma_without_owner_map(exts: Seq<Extension>, owner: Seq<char>)
    ensures
        extension_map(without_owner(exts, owner)) == extension_map(exts).remove(owner),
    decreases exts.len(),
{
    if exts.len() == 0 {
        assert(without_owner(exts, owner) =~= Seq::<Extension>::empty());
        assert(extension_map(exts).remove(owner) =~= Map::empty());
    } else {
        let init = exts.drop_last();
        let last = exts.last();
        lemma_without_owner_map(init, owner);
        assert(exts =~= init.push(last));
        if last.owner@ == owner {
            assert(without_owner(exts, owner) == without_owner(init, owner));
            assert(extension_map(exts).remove(owner) =~= extension_map(init).remove(owner));
        } else {
            assert(without_owner(exts, owner) == without_owner(init, owner).push(last));
            assert(without_owner(init, owner).push(last).drop_last() =~= without_owner(init, owner));
            assert(extension_map(exts).remove(owner) =~= extension_map(init).remove(owner).insert(
                last.owner@,
                last.json@,
            ));
        }
    }
}

fn remove_owner(exts: Vec<Extension>, owner: &str) -> (r: Vec<Extension>)
    ensures
        r@ == without_owner(exts@, owner@),
        extension_map(r@) == extension_map(exts@).remove(owner@),
{
    let ghost all = exts@;
    let mut rest = exts;
    let mut kept: Vec<Extension> = Vec::new();
    let ghost taken: int = 0;
    assert(all.take(0) =~= Seq::<Extension>::empty());
    assert(without_owner(all.take(0), owner@) =~= Seq::<Extension>::empty());
    while rest.len() > 0
        invariant
            0 <= taken <= all.len(),
            taken + rest@.len() == all.len(),
            rest@ == all.skip(taken),
            kept@ == without_owner(all.take(taken), owner@),
        decreases rest.len(),
    {
        let e = rest.remove(0);
        proof {
            assert(all.take(taken + 1) =~= all.take(taken).push(e));
            taken = taken + 1;
            assert(rest@ =~= all.skip(taken));
        }
        assert(all.take(taken).drop_last() =~= all.take(taken - 1));
        if !crate::text::str_equal(e.owner.as_str(), owner) {
            kept.push(e);
        }
    }
    assert(all.take(taken) =~= all);
    proof {
        lemma_without_owner_map(all, owner@);
    }
    kept
}

fn set_owner(exts: Vec<Extension>, owner: String, json: String) -> (r: Vec<Extension>)
    ensures
        extension_map(r@) == extension_map(exts@).insert(owner@, json@),
{
    let ghost o = owner@;
    let ghost j = json@;
    let mut kept = remove_owner(exts, owner.as_str());
    let ghost before = kept@;
    kept.push(Extension { owner, json });
    assert(kept@.drop_last() =~= before);
    assert(extension_map(exts@).remove(o).insert(o, j) =~= extension_map(exts@).insert(o, j));
    kept
}

// ---------------------------------------------------------------------
// Annotating an assignment
// ---------------------------------------------------------------------

/// The arguments of `annotate` can be applied: a summary that is not blank,
/// a working directory that is not blank, and valid extension arguments.
pub open spec fn annotation_valid(args: AnnotateArgs) -> bool {
    &&& args.summary matches Some(t) ==> summary_text(t@).len() > 0
    &&& args.cwd matches Some(p) ==> trim(p@).len() > 0
    &&& forall|i: int|
        0 <= i < args.extensions@.len() ==> (#[trigger] extension_parts(args.extensions@[i]@)) is Some
}

/// The assignment after `annotate` with `args` at `now`.
pub open spec fn annotated(a: Assignment, args: AnnotateArgs, now: Timestamp, b: Assignment) -> bool {
    &&& b.version == a.version
    &&& b.session_id == a.session_id
    &&& b.name == a.name
    &&& b.slug == a.slug
    &&& b.first_name == a.first_name
    &&& b.family_name == a.family_name
    &&& b.realm == a.realm
    &&& b.created_at == a.created_at
    &&& b.updated_at == now
    &&& if args.clear_summary {
        b.summary is None
    } else {
        match args.summary {
            Some(t) => b.summary matches Some(s) && s.text@ == summary_text(t@) && s.updated_at == now,
            None => b.summary == a.summary,
        }
    }
    &&& b.state == (if args.clear_state {
        None
    } else {
        match args.state {
            Some(v) => Some(ActivityState { value: v, updated_at: now }),
            None => a.state,
        }
    })
    &&& if args.clear_cwd {
        b.cwd is None
    } else {
        match args.cwd {
            Some(p) => b.cwd matches Some(c) && c@ == trim(p@),
            None => b.cwd == a.cwd,
        }
    }
    &&& extension_map(b.extensions@) == set_owners(
        cleared_owners(extension_map(a.extensions@), string_views(args.clear_extensions@)),
        string_views(args.extensions@),
    )
}

/// Annotating changes only what it is asked to: without a new summary and
/// without clearing it the summary stays as it was, and likewise the state
/// and the working directory; the identity and creation time never change.
pub proof fn lemma_annotation_keeps_the_rest(a: Assignment, args: AnnotateArgs, now: Timestamp, b: Assignment)
    requires
        annotated(a, args, now, b),
    ensures
        !args.clear_summary && args.summary is None ==> b.summary == a.summary,
        !args.clear_state && args.state is None ==> b.state == a.state,
        !args.clear_cwd && args.cwd is None ==> b.cwd == a.cwd,
        b.session_id == a.session_id && b.name == a.name && b.slug == a.slug,
        b.first_name == a.first_name && b.family_name == a.family_name && b.realm == a.realm,
        b.created_at == a.created_at,
{
}

/// The first argument of `arguments` that is not a valid `OWNER=JSON`.
pub open spec fn first_invalid_extension(arguments: Seq<Seq<char>>) -> Option<Seq<char>>
    decreases arguments.len(),
{
    if arguments.len() == 0 {
        None
    } else {
        match first_invalid_extension(arguments.drop_last()) {
            Some(x) => Some(x),
            None => if extension_parts(arguments.last()) is None {
                Some(arguments.last())
            } else {
                None
            },
        }
    }
}

proof fn lemma_first_invalid(arguments: Seq<Seq<char>>)
    ensures
        first_invalid_extension(arguments) is None <==> forall|i: int|
            0 <= i < arguments.len() ==> (#[trigger] extension_parts(arguments[i])) is Some,
    decreases arguments.len(),
{
    if arguments.len() > 0 {
        lemma_first_invalid(arguments.drop_last());
        if first_invalid_extension(arguments) is None {
            assert forall|i: int| 0 <= i < arguments.len() implies (#[trigger] extension_parts(
                arguments[i],
            )) is Some by {
                if i < arguments.len() - 1 {
                    assert(arguments[i] == arguments.drop_last()[i]);
                }
            }
        }
    }
}

#[verifier::loop_isolation(false)]
/// Records the annotation `args` on `a` at `now`. Refused, in this order of
/// checks, for a blank summary, a blank working directory, or the first
/// extension argument that is not `OWNER=JSON` with a JSON document.
pub fn annotate(a: Assignment, args: &AnnotateArgs, now: Timestamp) -> (r: Result<
    Assignment,
    RegistryError,
>)
    ensures
        r is Ok <==> annotation_valid(*args),
        r matches Ok(b) ==> annotated(a, *args, now, b),
        r matches Ok(b) ==> (!args.clear_summary && args.summary is None ==> b.summary
            == a.summary),
        r matches Ok(b) ==> (!args.clear_state && args.state is None ==> b.state == a.state),
        r matches Ok(b) ==> (!args.clear_cwd && args.cwd is None ==> b.cwd == a.cwd),
        r matches Ok(b) ==> b.updated_at == now && b.created_at == a.created_at && b.session_id
            == a.session_id && b.name == a.name && b.slug == a.slug,
        r matches Ok(b) ==> (args.clear_summary ==> b.summary is None),
        r matches Ok(b) ==> (!args.clear_summary ==> (args.summary matches Some(t) ==> (
        b.summary matches Some(m) && m.text@ == summary_text(t@) && m.updated_at == now))),
        r matches Ok(b) ==> (args.clear_state ==> b.state is None),
        r matches Ok(b) ==> (!args.clear_state ==> (args.state matches Some(v) ==> b.state == Some(
            ActivityState { value: v, updated_at: now },
        ))),
        r matches Ok(b) ==> (args.clear_cwd ==> b.cwd is None),
        r matches Ok(b) ==> (!args.clear_cwd ==> (args.cwd matches Some(p) ==> (b.cwd matches Some(
            c,
        ) && c@ == trim(p@)))),
        r matches Err(e) ==> if args.summary matches Some(t) && summary_text(t@).len() == 0 {
            e matches RegistryError::Empty { kind: k } && k@ == "summary"@
        } else if args.cwd matches Some(p) && trim(p@).len() == 0 {
            e matches RegistryError::Empty { kind: k } && k@ == "working directory"@
        } else {
            e matches RegistryError::InvalidExtension { argument: x } && first_invalid_extension(
                string_views(args.extensions@),
            ) == Some(x@)
        },
{
    proof {
        lemma_first_invalid(string_views(args.extensions@));
        assert forall|i: int| 0 <= i < args.extensions@.len() implies string_views(
            args.extensions@,
        )[i] == args.extensions@[i]@ by {}
    }
    let summary = match &args.summary {
        Some(t) => {
            let text = collapse_whitespace(t.as_str());
            if text.as_str().unicode_len() == 0 {
                return Err(RegistryError::Empty { kind: owned("summary") });
            }
            Some(text)
        },
        None => None,
    };
    let cwd = match &args.cwd {
        Some(p) => {
            let v = trimmed_chars(p.as_str());
            if v.len() == 0 {
                return Err(RegistryError::Empty { kind: owned("working directory") });
            }
            Some(string_of(&v))
        },
        None => None,
    };
    let mut parsed: Vec<(String, String)> = Vec::new();
    let mut i: usize = 0;
    while i < args.extensions.len()
        invariant
            i <= args.extensions@.len(),
            parsed@.len() == i,
            first_invalid_extension(string_views(args.extensions@.take(i as int))) is None,
            forall|j: int|
                0 <= j < i ==> extension_parts(args.extensions@[j]@) == Some(
                    ((#[trigger] parsed@[j]).0@, parsed@[j].1@),
                ),
        decreases args.extensions.len() - i,
    {
        assert(string_views(args.extensions@.take(i as int)) =~= string_views(args.extensions@).take(
            i as int,
        ));
        let ghost prefix = string_views(args.extensions@.take(i + 1));
        assert(prefix.drop_last() =~= string_views(args.extensions@.take(i as int)));
        assert(prefix.last() == args.extensions@[i as int]@);
        match parse_extension(args.extensions[i].as_str()) {
            Some(p) => parsed.push(p),
            None => {
                proof {
                    lemma_first_invalid_prefix(string_views(args.extensions@), i as int + 1);
                    assert(string_views(args.extensions@).take(i + 1) =~= prefix);
                }
                return Err(
                    RegistryError::InvalidExtension { argument: args.extensions[i].clone() },
                );
            },
        }
        i += 1;
    }
    assert(args.extensions@.take(i as int) =~= args.extensions@);
    let mut b = a;
    b.updated_at = now;
    if args.clear_summary {
        b.summary = None;
    } else if let Some(text) = summary {
        b.summary = Some(Summary { text, updated_at: now });
    }
    if args.clear_state {
        b.state = None;
    } else if let Some(v) = args.state {
        b.state = Some(ActivityState { value: v, updated_at: now });
    }
    if args.clear_cwd {
        b.cwd = None;
    } else if let Some(c) = cwd {
        b.cwd = Some(c);
    }
    let ghost start = extension_map(b.extensions@);
    let mut exts: Vec<Extension> = Vec::new();
    std::mem::swap(&mut exts, &mut b.extensions);
    let mut k: usize = 0;
    while k < args.clear_extensions.len()
        invariant
            k <= args.clear_extensions@.len(),
            extension_map(exts@) == cleared_owners(
                start,
                string_views(args.clear_extensions@).take(k as int),
            ),
        decreases args.clear_extensions.len() - k,
    {
        let owner = trimmed_chars(args.clear_extensions[k].as_str());
        let owner = string_of(&owner);
        let ghost s = string_views(args.clear_extensions@).take(k + 1);
        assert(s.drop_last() =~= string_views(args.clear_extensions@).take(k as int));
        assert(s.last() == args.clear_extensions@[k as int]@);
        exts = remove_owner(exts, owner.as_str());
        k += 1;
    }
    assert(string_views(args.clear_extensions@).take(args.clear_extensions.len() as int)
        =~= string_views(args.clear_extensions@));
    let ghost middle = extension_map(exts@);
    let mut m: usize = 0;
    let mut pairs = parsed;
    let ghost all_pairs = pairs@;
    while pairs.len() > 0
        invariant
            m + pairs@.len() == args.extensions@.len(),
            m <= args.extensions.len(),
            all_pairs.len() == args.extensions@.len(),
            pairs@ == all_pairs.skip(m as int),
            forall|j: int|
                0 <= j < args.extensions@.len() ==> extension_parts(args.extensions@[j]@) == Some(
                    ((#[trigger] all_pairs[j]).0@, all_pairs[j].1@),
                ),
            extension_map(exts@) == set_owners(middle, string_views(args.extensions@).take(m as int)),
        decreases pairs.len(),
    {
        let (owner, json) = pairs.remove(0);
        let ghost s = string_views(args.extensions@).take(m + 1);
        assert(s.drop_last() =~= string_views(args.extensions@).take(m as int));
        assert(s.last() == args.extensions@[m as int]@);
        assert(all_pairs[m as int] == (owner, json));
        exts = set_owner(exts, owner, json);
        m += 1;
        assert(pairs@ =~= all_pairs.skip(m as int));
    }
    assert(string_views(args.extensions@).take(m as int) =~= string_views(args.extensions@));
    b.extensions = exts;
    assert(args.summary matches Some(t) ==> summary_text(t@).len() > 0);
    assert(args.cwd matches Some(p) ==> trim(p@).len() > 0);
    assert forall|j: int| 0 <= j < args.extensions@.len() implies (#[trigger] extension_parts(
        args.extensions@[j]@,
    )) is Some by {
        assert(extension_parts(args.extensions@[j]@) == Some((all_pairs[j].0@, all_pairs[j].1@)));
    }
    Ok(b)
}

proof fn lemma_first_invalid_prefix(arguments: Seq<Seq<char>>, n: int)
    requires
        0 < n <= arguments.len(),
        first_invalid_extension(arguments.take(n - 1)) is None,
        extension_parts(arguments[n - 1]) is None,
    ensures
        first_invalid_extension(arguments) == Some(arguments[n - 1]),
    decreases arguments.len() - n,
{
    let t = arguments.take(n);
    assert(t.drop_last() =~= arguments.take(n - 1));
    if n < arguments.len() {
        assert(arguments.take(n + 1).drop_last() =~= t);
        lemma_first_invalid_prefix_step(arguments, n);
    } else {
        assert(t =~= arguments);
    }
}

proof fn lemma_first_invalid_prefix_step(arguments: Seq<Seq<char>>, n: int)
    requires
        0 < n <= arguments.len(),
        first_invalid_extension(arguments.take(n)) is Some,
    ensures
        first_invalid_extension(arguments) == first_invalid_extension(arguments.take(n)),
    decreases arguments.len() - n,
{
    if n < arguments.len() {
        assert(arguments.take(n + 1).drop_last() =~= arguments.take(n));
        lemma_first_invalid_prefix_step(arguments, n + 1);
    } else {
        assert(arguments.take(n) =~= arguments);
    }
}

} // verus!
