//! The rules for identity names: session IDs, name components, slugs, and
//! the identifiers that a lookup accepts.
use vstd::prelude::*;

use crate::error::RegistryError;
use crate::text::{
    ascii_lower, chars_eq_ignore_case, chars_of, eq_ignore_case, is_alnum, is_alpha,
    is_ascii_alphabetic, is_ascii_alphanumeric, is_ascii_char, is_upper, is_ws, lower_char,
    lowercase_chars, owned, push_chars, split_words, string_of, to_ascii_lower, to_uppercase, trim,
    trimmed_chars, upper_char, upper_mapping, views, words, lemma_words_trim,
    lemma_words_many_has_ws, lemma_lower_char_eq,
};

verus! {

broadcast use vstd::string::group_string_axioms;

// ---------------------------------------------------------------------
// Blank values and session IDs
// ---------------------------------------------------------------------

/// `value.trim()`, refused when blank; `kind` names the value in the error.
pub fn require_nonempty(value: &str, kind: &str) -> (r: Result<String, RegistryError>)
    ensures
        r is Ok <==> trim(value@).len() > 0,
        r matches Ok(s) ==> s@ == trim(value@),
        r matches Err(e) ==> e matches RegistryError::Empty { kind: k } && k@ == kind@,
{
    let v = trimmed_chars(value);
    if v.len() == 0 {
        return Err(RegistryError::Empty { kind: owned(kind) });
    }
    Ok(string_of(&v))
}

/// A character that may stand in a session ID.
pub open spec fn is_session_char(c: char) -> bool {
    is_alnum(c) || c == '-' || c == '_' || c == '.'
}

/// A session ID that can name a file in the registry's directory: only
/// letters, digits, `.`, `_` and `-`, and neither `.` nor `..`.
pub open spec fn safe_session_id(v: Seq<char>) -> bool {
    &&& forall|i: int| 0 <= i < v.len() ==> is_session_char(#[trigger] v[i])
    &&& v != seq!['.']
    &&& v != seq!['.', '.']
}

/// `value.trim()` when it is a non-blank, filename-safe session ID.
pub fn validate_session_id(value: &str) -> (r: Result<String, RegistryError>)
    ensures
        r is Ok <==> trim(value@).len() > 0 && safe_session_id(trim(value@)),
        r matches Ok(s) ==> s@ == trim(value@),
        r matches Err(e) ==> if trim(value@).len() == 0 {
            e matches RegistryError::Empty { kind: k } && k@ == "session ID"@
        } else {
            e is UnsafeSessionId
        },
{
    let v = trimmed_chars(value);
    if v.len() == 0 {
        return Err(RegistryError::Empty { kind: owned("session ID") });
    }
    let mut i: usize = 0;
    while i < v.len()
        invariant
            i <= v.len(),
            v@ == trim(value@),
            v.len() > 0,
            forall|j: int| 0 <= j < i ==> is_session_char(#[trigger] v@[j]),
        decreases v.len() - i,
    {
        let c = v[i];
        if !(is_ascii_alphanumeric(c) || c == '-' || c == '_' || c == '.') {
            assert(!is_session_char(v@[i as int]));
            return Err(RegistryError::UnsafeSessionId);
        }
        i += 1;
    }
    if v.len() == 1 && v[0] == '.' {
        assert(v@ =~= seq!['.']);
        return Err(RegistryError::UnsafeSessionId);
    }
    if v.len() == 2 && v[0] == '.' && v[1] == '.' {
        assert(v@ =~= seq!['.', '.']);
        return Err(RegistryError::UnsafeSessionId);
    }
    proof {
        if v@ == seq!['.'] || v@ == seq!['.', '.'] {
            assert(v@[0] == '.');
        }
    }
    Ok(string_of(&v))
}

/// A filename-safe session ID holds no path separator, so the file named
/// after it stays in the registry's session directory.
pub proof fn lemma_safe_session_id_is_one_name(v: Seq<char>)
    requires
        safe_session_id(v),
    ensures
        !v.contains('/'),
        !v.contains('\\'),
        v != seq!['.'],
        v != seq!['.', '.'],
{
    if v.contains('/') {
        let i = choose|i: int| 0 <= i < v.len() && v[i] == '/';
        assert(is_session_char(v[i]));
    }
    if v.contains('\\') {
        let i = choose|i: int| 0 <= i < v.len() && v[i] == '\\';
        assert(is_session_char(v[i]));
    }
}

/// The name of the file that holds a session's assignment.
pub open spec fn session_file_name_text(session_id: Seq<char>) -> Seq<char> {
    session_id + ".json"@
}

/// `format!("{session_id}.json")`.
pub fn session_file_name(session_id: &str) -> (r: String)
    ensures
        r@ == session_file_name_text(session_id@),
{
    let mut r = owned(session_id);
    crate::text::push_str(&mut r, ".json");
    r
}

// ---------------------------------------------------------------------
// Name components
// ---------------------------------------------------------------------

/// A character that may stand in a first name, family name or realm.
pub open spec fn is_component_char(c: char) -> bool {
    is_alpha(c) || c == '-' || c == '\''
}

/// A name component: letters, apostrophes and hyphens, starting and ending
/// with a letter.
pub open spec fn valid_component(v: Seq<char>) -> bool {
    &&& v.len() > 0
    &&& forall|i: int| 0 <= i < v.len() ==> is_component_char(#[trigger] v[i])
    &&& is_alpha(v[0])
    &&& is_alpha(v.last())
}

/// The first character uppercased (ASCII letters as ASCII, any other
/// character by its Unicode mapping), the rest ASCII-lowercased.
pub open spec fn title(v: Seq<char>) -> Seq<char> {
    if v.len() == 0 {
        Seq::empty()
    } else if is_ascii_char(v[0]) {
        seq![upper_char(v[0])] + ascii_lower(v.drop_first())
    } else {
        upper_mapping(v[0]) + ascii_lower(v.drop_first())
    }
}

/// The characters of `title(v@)`.
pub fn title_chars(v: &Vec<char>) -> (r: Vec<char>)
    ensures
        r@ == title(v@),
{
    if v.len() == 0 {
        return Vec::new();
    }
    let mut r = to_uppercase(v[0]);
    let ghost head = r@;
    let mut i: usize = 1;
    while i < v.len()
        invariant
            1 <= i <= v.len(),
            r@ == head + ascii_lower(v@.subrange(1, i as int)),
        decreases v.len() - i,
    {
        r.push(to_ascii_lower(v[i]));
        i += 1;
        assert(ascii_lower(v@.subrange(1, i as int)) =~= ascii_lower(v@.subrange(1, i - 1)).push(
            lower_char(v@[i - 1]),
        ));
    }
    assert(v@.subrange(1, v.len() as int) =~= v@.drop_first());
    r
}

/// The first character uppercased, the rest ASCII-lowercased.
pub fn title_word(value: &str) -> (r: String)
    ensures
        r@ == title(value@),
{
    let v = chars_of(value);
    let t = title_chars(&v);
    string_of(&t)
}

fn component_ok(v: &Vec<char>) -> (r: bool)
    ensures
        r == valid_component(v@),
{
    if v.len() == 0 {
        return false;
    }
    let mut i: usize = 0;
    while i < v.len()
        invariant
            i <= v.len(),
            forall|j: int| 0 <= j < i ==> is_component_char(#[trigger] v@[j]),
        decreases v.len() - i,
    {
        let c = v[i];
        if !(is_ascii_alphabetic(c) || c == '-' || c == '\'') {
            return false;
        }
        i += 1;
    }
    is_ascii_alphabetic(v[0]) && is_ascii_alphabetic(v[v.len() - 1])
}

/// The normal form of a name component.
pub open spec fn normalized(value: Seq<char>) -> Option<Seq<char>> {
    if valid_component(trim(value)) {
        Some(title(trim(value)))
    } else {
        None
    }
}

/// `r` is what normalizing `value` as the component `kind` gives: its
/// normal form, or the error that names `kind`.
pub open spec fn normalizes_to(r: Result<String, RegistryError>, value: Seq<char>, kind: Seq<char>) -> bool {
    match r {
        Ok(s) => normalized(value) == Some(s@),
        Err(e) => normalized(value) is None && (e matches RegistryError::InvalidComponent {
            kind: k,
        } && k@ == kind),
    }
}

/// `value` trimmed and title-cased, when it is a valid name component;
/// `kind` names the component in the error.
pub fn normalize_component(value: &str, kind: &str) -> (r: Result<String, RegistryError>)
    ensures
        normalizes_to(r, value@, kind@),
{
    let v = trimmed_chars(value);
    if !component_ok(&v) {
        return Err(RegistryError::InvalidComponent { kind: owned(kind) });
    }
    let t = title_chars(&v);
    Ok(string_of(&t))
}

// ---------------------------------------------------------------------
// Slugs
// ---------------------------------------------------------------------

/// A slug character: lowercase, with spaces, apostrophes and underscores
/// turned into hyphens.
pub open spec fn slug_char(c: char) -> char {
    if c == ' ' || c == '\'' || c == '_' {
        '-'
    } else {
        lower_char(c)
    }
}

pub open spec fn slug_part(p: Seq<char>) -> Seq<char> {
    p.map_values(|c: char| slug_char(c))
}

/// The slug of a name: its three parts in slug form, joined by hyphens.
pub open spec fn slug_text(first: Seq<char>, family: Seq<char>, realm: Seq<char>) -> Seq<char> {
    slug_part(first) + seq!['-'] + slug_part(family) + seq!['-'] + slug_part(realm)
}

fn slug_part_chars(p: &Vec<char>) -> (r: Vec<char>)
    ensures
        r@ == slug_part(p@),
{
    let mut r: Vec<char> = Vec::new();
    let mut i: usize = 0;
    while i < p.len()
        invariant
            i <= p.len(),
            r@ == slug_part(p@.take(i as int)),
        decreases p.len() - i,
    {
        let c = p[i];
        let d = if c == ' ' || c == '\'' || c == '_' {
            '-'
        } else {
            to_ascii_lower(c)
        };
        r.push(d);
        i += 1;
        assert(slug_part(p@.take(i as int)) =~= slug_part(p@.take(i - 1)).push(slug_char(c)));
    }
    assert(p@.take(p.len() as int) =~= p@);
    r
}

fn slug_of_chars(first: &Vec<char>, family: &Vec<char>, realm: &Vec<char>) -> (r: String)
    ensures
        r@ == slug_text(first@, family@, realm@),
{
    let mut r = String::new();
    push_chars(&mut r, &slug_part_chars(first));
    push_chars(&mut r, &vec!['-']);
    push_chars(&mut r, &slug_part_chars(family));
    push_chars(&mut r, &vec!['-']);
    push_chars(&mut r, &slug_part_chars(realm));
    r
}

/// The slug of the name with these parts.
pub fn slug(first_name: &str, family_name: &str, realm: &str) -> (r: String)
    ensures
        r@ == slug_text(first_name@, family_name@, realm@),
{
    slug_of_chars(&chars_of(first_name), &chars_of(family_name), &chars_of(realm))
}

/// Text that has the shape of a slug: ASCII letters, digits and hyphens, not
/// starting or ending with a hyphen.
pub open spec fn slug_like(s: Seq<char>) -> bool {
    &&& s.len() > 0
    &&& s[0] != '-'
    &&& s.last() != '-'
    &&& forall|i: int| 0 <= i < s.len() ==> is_alnum(#[trigger] s[i]) || s[i] == '-'
}

fn slug_like_chars(s: &Vec<char>) -> (r: bool)
    ensures
        r == slug_like(s@),
{
    if s.len() == 0 || s[0] == '-' || s[s.len() - 1] == '-' {
        return false;
    }
    let mut i: usize = 0;
    while i < s.len()
        invariant
            i <= s.len(),
            forall|j: int| 0 <= j < i ==> is_alnum(#[trigger] s@[j]) || s@[j] == '-',
        decreases s.len() - i,
    {
        if !(is_ascii_alphanumeric(s[i]) || s[i] == '-') {
            return false;
        }
        i += 1;
    }
    true
}

/// Whether `input` has the shape of a slug.
pub fn is_slug(input: &str) -> (r: bool)
    ensures
        r == slug_like(input@),
{
    slug_like_chars(&chars_of(input))
}

/// The slug that a canonical name `"First Family of Realm"` stands for: four
/// whitespace-separated words, the third `of` in any ASCII case, the others
/// valid name components.
pub open spec fn canonical_slug(s: Seq<char>) -> Option<Seq<char>> {
    let p = words(s);
    if p.len() == 4 && valid_component(p[0]) && valid_component(p[1]) && eq_ignore_case(
        p[2],
        seq!['o', 'f'],
    ) && valid_component(p[3]) {
        Some(slug_text(title(p[0]), title(p[1]), title(p[3])))
    } else {
        None
    }
}

fn canonical_slug_chars(s: &Vec<char>) -> (r: Option<String>)
    ensures
        r matches Some(x) ==> canonical_slug(s@) == Some(x@),
        r is None ==> canonical_slug(s@) is None,
{
    let parts = split_words(s);
    if parts.len() != 4 {
        return None;
    }
    assert(views(parts@)[0] == parts@[0]@);
    assert(views(parts@)[1] == parts@[1]@);
    assert(views(parts@)[2] == parts@[2]@);
    assert(views(parts@)[3] == parts@[3]@);
    if !component_ok(&parts[0]) || !component_ok(&parts[1]) {
        return None;
    }
    let of = vec!['o', 'f'];
    if !chars_eq_ignore_case(&parts[2], &of) {
        return None;
    }
    if !component_ok(&parts[3]) {
        return None;
    }
    let first = title_chars(&parts[0]);
    let family = title_chars(&parts[1]);
    let realm = title_chars(&parts[3]);
    Some(slug_of_chars(&first, &family, &realm))
}

/// The slug that a canonical name stands for.
pub fn canonical_name_slug(input: &str) -> (r: Option<String>)
    ensures
        r matches Some(x) ==> canonical_slug(input@) == Some(x@),
        r is None ==> canonical_slug(input@) is None,
{
    canonical_slug_chars(&chars_of(input))
}

/// The slugs under which a lookup identifier is searched, in order: the
/// identifier itself, lowercased, when it has the shape of a slug, then the
/// slug of the canonical name it spells, when that is another one.
pub open spec fn lookup_slug_list(input: Seq<char>) -> Seq<Seq<char>> {
    let t = trim(input);
    let direct = if slug_like(t) {
        seq![ascii_lower(t)]
    } else {
        Seq::empty()
    };
    match canonical_slug(t) {
        Some(s) => if direct.contains(s) {
            direct
        } else {
            direct.push(s)
        },
        None => direct,
    }
}

/// The character sequences held by a vector of strings.
pub open spec fn string_views(v: Seq<String>) -> Seq<Seq<char>> {
    v.map_values(|s: String| s@)
}

/// The slugs under which `input` is looked up.
pub fn lookup_slugs(input: &str) -> (r: Vec<String>)
    ensures
        string_views(r@) == lookup_slug_list(input@),
{
    let t = trimmed_chars(input);
    let mut slugs: Vec<String> = Vec::new();
    let ghost direct: Seq<Seq<char>> = Seq::empty();
    if slug_like_chars(&t) {
        let lowered = lowercase_chars(&t);
        slugs.push(string_of(&lowered));
        proof {
            direct = seq![ascii_lower(t@)];
        }
    }
    assert(string_views(slugs@) =~= direct);
    match canonical_slug_chars(&t) {
        Some(s) => {
            let mut present = false;
            if slugs.len() == 1 {
                let a = chars_of(slugs[0].as_str());
                let b = chars_of(s.as_str());
                present = crate::text::chars_equal(&a, &b);
            }
            assert(present == direct.contains(s@)) by {
                if direct.len() == 1 && direct[0] == s@ {
                    assert(direct.contains(s@));
                }
            }
            if !present {
                slugs.push(s);
                assert(string_views(slugs@) =~= direct.push(s@));
            }
        },
        None => {},
    }
    slugs
}

/// The canonical name: `"{first} {family} of {realm}"`.
pub open spec fn name_text(first: Seq<char>, family: Seq<char>, realm: Seq<char>) -> Seq<char> {
    first + seq![' '] + family + seq![' ', 'o', 'f', ' '] + realm
}

/// `format!("{first} {family} of {realm}")`.
pub fn canonical_name(first: &str, family: &str, realm: &str) -> (r: String)
    ensures
        r@ == name_text(first@, family@, realm@),
{
    let mut r = owned(first);
    push_chars(&mut r, &vec![' ']);
    crate::text::push_str(&mut r, family);
    push_chars(&mut r, &vec![' ', 'o', 'f', ' ']);
    crate::text::push_str(&mut r, realm);
    r
}

// ---------------------------------------------------------------------
// Laws
// ---------------------------------------------------------------------

/// A component in normal form: normalizing it gives it back.
pub open spec fn is_normal(v: Seq<char>) -> bool {
    normalized(v) == Some(v)
}

proof fn lemma_trim_fixed(v: Seq<char>)
    requires
        v.len() > 0,
        !is_ws(v[0]),
        !is_ws(v.last()),
    ensures
        trim(v) == v,
{
    assert(crate::text::trim_start(v) == v);
    assert(crate::text::trim_end(v) == v);
}

proof fn lemma_component_no_ws(v: Seq<char>)
    requires
        forall|i: int| 0 <= i < v.len() ==> is_component_char(#[trigger] v[i]),
    ensures
        forall|i: int| 0 <= i < v.len() ==> !is_ws(#[trigger] v[i]),
{
}

proof fn lemma_title_of_valid(t: Seq<char>)
    requires
        valid_component(t),
    ensures
        valid_component(title(t)),
        title(t).len() == t.len(),
        title(title(t)) == title(t),
        is_upper(title(t)[0]),
{
    let n = title(t);
    let rest = t.drop_first();
    assert(is_ascii_char(t[0]));
    assert(n == seq![upper_char(t[0])] + ascii_lower(rest));
    assert forall|i: int| 0 <= i < n.len() implies is_component_char(#[trigger] n[i]) by {
        if i > 0 {
            assert(n[i] == lower_char(rest[i - 1]));
            assert(rest[i - 1] == t[i]);
        }
    }
    if n.len() > 1 {
        assert(n.last() == lower_char(t.last()));
    }
    let m = title(n);
    assert(is_ascii_char(n[0]));
    assert(n.drop_first() =~= ascii_lower(rest));
    assert(ascii_lower(ascii_lower(rest)) =~= ascii_lower(rest));
    assert(m =~= n);
}

/// Normalizing a normalized component gives it back.
pub proof fn lemma_normalize_idempotent(v: Seq<char>)
    requires
        normalized(v) is Some,
    ensures
        is_normal(normalized(v)->0),
{
    let t = trim(v);
    lemma_title_of_valid(t);
    let n = title(t);
    lemma_component_no_ws(n);
    lemma_trim_fixed(n);
}

/// A valid component, title-cased, is in normal form.
pub proof fn lemma_title_is_normal(x: Seq<char>)
    requires
        valid_component(x),
    ensures
        is_normal(title(x)),
{
    lemma_component_no_ws(x);
    lemma_trim_fixed(x);
    lemma_normalize_idempotent(x);
}

/// Title-casing a component in normal form leaves it unchanged.
pub proof fn lemma_normal_title_fixed(a: Seq<char>)
    requires
        is_normal(a),
    ensures
        title(a) == a,
        valid_component(a),
{
    lemma_normal_parts(a);
}

proof fn lemma_normal_parts(a: Seq<char>)
    requires
        is_normal(a),
    ensures
        valid_component(a),
        title(a) == a,
        trim(a) == a,
        is_upper(a[0]),
        forall|i: int| 0 <= i < a.len() ==> !is_ws(#[trigger] a[i]),
{
    let t = trim(a);
    lemma_title_of_valid(t);
    lemma_component_no_ws(a);
    lemma_trim_fixed(a);
}

proof fn lemma_slug_part_shape(p: Seq<char>)
    requires
        valid_component(p),
    ensures
        slug_part(p).len() == p.len(),
        forall|i: int| 0 <= i < p.len() ==> is_alnum(#[trigger] slug_part(p)[i]) || slug_part(p)[i] == '-',
        forall|i: int| 0 <= i < p.len() ==> lower_char(#[trigger] slug_part(p)[i]) == slug_part(p)[i],
        forall|i: int| 0 <= i < p.len() ==> !is_ws(#[trigger] slug_part(p)[i]),
        is_alpha(slug_part(p)[0]),
        is_alpha(slug_part(p).last()),
{
}

/// The slug of a name in normal form has the shape of a slug, is already
/// lowercase, and is a single word.
pub proof fn lemma_slug_shape(first: Seq<char>, family: Seq<char>, realm: Seq<char>)
    requires
        is_normal(first),
        is_normal(family),
        is_normal(realm),
    ensures
        slug_like(slug_text(first, family, realm)),
        ascii_lower(slug_text(first, family, realm)) == slug_text(first, family, realm),
        trim(slug_text(first, family, realm)) == slug_text(first, family, realm),
        words(slug_text(first, family, realm)) == seq![slug_text(first, family, realm)],
{
    lemma_normal_parts(first);
    lemma_normal_parts(family);
    lemma_normal_parts(realm);
    lemma_slug_part_shape(first);
    lemma_slug_part_shape(family);
    lemma_slug_part_shape(realm);
    let x = slug_part(first);
    let y = slug_part(family);
    let z = slug_part(realm);
    let s = slug_text(first, family, realm);
    assert(s == x + seq!['-'] + y + seq!['-'] + z);
    assert forall|i: int| 0 <= i < s.len() implies (is_alnum(#[trigger] s[i]) || s[i] == '-') && lower_char(s[i]) == s[i] && !is_ws(s[i]) by {
        if i < x.len() {
            assert(s[i] == x[i]);
        } else if i == x.len() {
        } else if i < x.len() + 1 + y.len() {
            assert(s[i] == y[i - x.len() - 1]);
        } else if i == x.len() + 1 + y.len() {
        } else {
            assert(s[i] == z[i - x.len() - 2 - y.len()]);
        }
    }
    assert(s[0] == x[0]);
    assert(s.last() == z.last());
    assert(ascii_lower(s) =~= s);
    lemma_trim_fixed(s);
    crate::text::lemma_words_single(s);
}

/// The words of a canonical name in normal form are its first name, its
/// family name, `of`, and its realm.
pub proof fn lemma_name_words(first: Seq<char>, family: Seq<char>, realm: Seq<char>)
    requires
        is_normal(first),
        is_normal(family),
        is_normal(realm),
    ensures
        words(name_text(first, family, realm)) == seq![first, family, seq!['o', 'f'], realm],
{
    lemma_normal_parts(first);
    lemma_normal_parts(family);
    lemma_normal_parts(realm);
    let of = seq!['o', 'f'];
    let left = first + seq![' '] + family;
    let right = of + seq![' '] + realm;
    assert(name_text(first, family, realm) =~= left + seq![' '] + right);
    crate::text::lemma_words_split(left, ' ', right);
    crate::text::lemma_words_split(first, ' ', family);
    crate::text::lemma_words_split(of, ' ', realm);
    crate::text::lemma_words_single(first);
    crate::text::lemma_words_single(family);
    crate::text::lemma_words_single(realm);
    crate::text::lemma_words_single(of);
    assert(seq![first] + seq![family] + (seq![of] + seq![realm]) =~= seq![first, family, of, realm]);
}

/// A registered identity is found under its canonical name and under its
/// slug: both lead to the claim of its slug, and to nothing else.
pub proof fn lemma_lookup_finds_names(first: Seq<char>, family: Seq<char>, realm: Seq<char>)
    requires
        is_normal(first),
        is_normal(family),
        is_normal(realm),
    ensures
        lookup_slug_list(name_text(first, family, realm)) == seq![slug_text(first, family, realm)],
        lookup_slug_list(slug_text(first, family, realm)) == seq![slug_text(first, family, realm)],
{
    lemma_normal_parts(first);
    lemma_normal_parts(family);
    lemma_normal_parts(realm);
    let n = name_text(first, family, realm);
    let s = slug_text(first, family, realm);
    lemma_slug_shape(first, family, realm);
    lemma_name_words(first, family, realm);
    assert(n[0] == first[0]);
    assert(n.last() == realm.last());
    lemma_trim_fixed(n);
    assert(n[first.len() as int] == ' ');
    assert(!slug_like(n));
    assert(eq_ignore_case(seq!['o', 'f'], seq!['o', 'f']));
    let p = words(n);
    assert(p[0] == first && p[1] == family && p[2] == seq!['o', 'f'] && p[3] == realm);
    assert(canonical_slug(n) == Some(s));
    assert(Seq::<Seq<char>>::empty().push(s) =~= seq![s]);
    assert(canonical_slug(s) is None);
}

/// A word equal up to ASCII case to a component in normal form is a valid
/// component, and title-casing it gives that normal form.
proof fn lemma_case_variant_title(w: Seq<char>, p: Seq<char>)
    requires
        is_normal(p),
        eq_ignore_case(w, p),
    ensures
        valid_component(w),
        title(w) == p,
{
    lemma_normal_parts(p);
    assert(ascii_lower(w).len() == ascii_lower(p).len());
    assert forall|i: int| 0 <= i < w.len() implies lower_char(#[trigger] w[i]) == lower_char(p[i]) by {
        assert(ascii_lower(w)[i] == ascii_lower(p)[i]);
    }
    assert forall|i: int| 0 <= i < w.len() implies is_component_char(#[trigger] w[i]) by {
        lemma_lower_char_eq(w[i], p[i]);
    }
    lemma_lower_char_eq(w[0], p[0]);
    assert(lower_char(w.last()) == lower_char(p.last())) by {
        assert(w.last() == w[w.len() - 1]);
        assert(p.last() == p[p.len() - 1]);
    }
    lemma_lower_char_eq(w.last(), p.last());
    assert(is_ascii_char(w[0]));
    assert(is_ascii_char(p[0]));
    assert(ascii_lower(w.drop_first()) =~= ascii_lower(p.drop_first())) by {
        assert forall|i: int| 0 <= i < w.len() - 1 implies ascii_lower(w.drop_first())[i]
            == ascii_lower(p.drop_first())[i] by {
            assert(w.drop_first()[i] == w[i + 1]);
            assert(p.drop_first()[i] == p[i + 1]);
        }
    }
    assert(title(w) =~= title(p));
}

/// Lookup ignores ASCII case and spacing in a canonical name: any text
/// whose whitespace-separated words are those of a canonical name in normal
/// form, each in any ASCII case, is looked up under that name's slug alone.
pub proof fn lemma_lookup_name_any_case_and_spacing(
    input: Seq<char>,
    first: Seq<char>,
    family: Seq<char>,
    realm: Seq<char>,
)
    requires
        is_normal(first),
        is_normal(family),
        is_normal(realm),
        words(input).len() == 4,
        forall|i: int|
            0 <= i < 4 ==> eq_ignore_case(
                #[trigger] words(input)[i],
                words(name_text(first, family, realm))[i],
            ),
    ensures
        lookup_slug_list(input) == seq![slug_text(first, family, realm)],
{
    let of = seq!['o', 'f'];
    let s = slug_text(first, family, realm);
    lemma_name_words(first, family, realm);
    let n = words(name_text(first, family, realm));
    assert(n[0] == first && n[1] == family && n[2] == of && n[3] == realm);
    let t = trim(input);
    lemma_words_trim(input);
    let p = words(t);
    assert(p == words(input));
    assert(eq_ignore_case(p[0], first));
    assert(eq_ignore_case(p[1], family));
    assert(eq_ignore_case(p[2], of));
    assert(eq_ignore_case(p[3], realm));
    lemma_case_variant_title(p[0], first);
    lemma_case_variant_title(p[1], family);
    lemma_case_variant_title(p[3], realm);
    assert(canonical_slug(t) == Some(s));
    lemma_words_many_has_ws(t);
    let k = choose|k: int| 0 <= k < t.len() && is_ws(#[trigger] t[k]);
    assert(!slug_like(t)) by {
        if slug_like(t) {
            assert(is_alnum(t[k]) || t[k] == '-');
        }
    }
    assert(Seq::<Seq<char>>::empty().push(s) =~= seq![s]);
}

/// Lookup ignores ASCII case and surrounding whitespace in a slug: any text
/// that, trimmed, equals the slug of a name in normal form up to ASCII case
/// is looked up under that slug alone.
pub proof fn lemma_lookup_slug_any_case(
    input: Seq<char>,
    first: Seq<char>,
    family: Seq<char>,
    realm: Seq<char>,
)
    requires
        is_normal(first),
        is_normal(family),
        is_normal(realm),
        eq_ignore_case(trim(input), slug_text(first, family, realm)),
    ensures
        lookup_slug_list(input) == seq![slug_text(first, family, realm)],
{
    let s = slug_text(first, family, realm);
    let t = trim(input);
    lemma_slug_shape(first, family, realm);
    assert(ascii_lower(t).len() == ascii_lower(s).len());
    assert forall|i: int| 0 <= i < t.len() implies lower_char(#[trigger] t[i]) == lower_char(s[i]) by {
        assert(ascii_lower(t)[i] == ascii_lower(s)[i]);
    }
    assert forall|i: int| 0 <= i < t.len() implies (is_alnum(#[trigger] t[i]) || t[i] == '-') && (
    t[i] == '-' <==> s[i] == '-') by {
        lemma_lower_char_eq(t[i], s[i]);
    }
    assert(t.last() == t[t.len() - 1]);
    assert(s.last() == s[s.len() - 1]);
    assert(slug_like(t));
    assert(ascii_lower(t) == s);
    assert forall|i: int| 0 <= i < t.len() implies !is_ws(#[trigger] t[i]) by {
        assert(is_alnum(t[i]) || t[i] == '-');
    }
    crate::text::lemma_words_single(t);
    assert(canonical_slug(t) is None);
}

} // verus!
