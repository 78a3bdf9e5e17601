//! The identity registry: assignments, how a name is allocated to a session,
//! how an identifier is looked up, and which assignments discovery lists.
//!
//! The registry's files are read and written by the caller; the functions
//! here decide what to read, what to write and what to answer.
use std::path::PathBuf;

use vstd::prelude::*;

use crate::activity::ActivityState;
use crate::error::RegistryError;
use crate::hashing::{be_u64_at, be_value, digest_text, index_from, pick_index, text_digest};
use crate::names::{
    candidate_realms, family_names, first_names, line_words, str_views, FAMILY_NAME_DATA,
    FIRST_NAME_DATA, REALM_DATA,
};
use crate::naming::{
    canonical_name, is_normal, lemma_lookup_finds_names, lemma_normal_title_fixed,
    lemma_title_is_normal, lookup_slug_list,
    valid_component, lookup_slugs, name_text, normalize_component, normalized, normalizes_to,
    require_nonempty, safe_session_id, session_file_name, session_file_name_text, slug,
    slug_text, string_views, title, title_word, validate_session_id,
};
use crate::text::{
    chars_equal, chars_of, decimal, decimal_chars, lemma_trim_idempotent, owned, push_chars, push_str,
    str_equal, trim, trimmed_chars,
};
use crate::hashing::text_index;
use crate::timestamp::Timestamp;

verus! {

broadcast use vstd::string::group_string_axioms;

// ---------------------------------------------------------------------
// Assignments
// ---------------------------------------------------------------------

/// A concise description of what a session is working on.
#[derive(Debug, PartialEq, Eq)]
pub struct Summary {
    pub text: String,
    pub updated_at: Timestamp,
}

/// Metadata that an extension attached to an assignment: its owner and a
/// JSON document.
#[derive(Debug, PartialEq, Eq)]
pub struct Extension {
    pub owner: String,
    pub json: String,
}

/// The permanent identity of a session.
#[derive(Debug, PartialEq, Eq)]
pub struct Assignment {
    pub version: u8,
    pub session_id: String,
    pub name: String,
    pub slug: String,
    pub first_name: String,
    pub family_name: String,
    pub realm: String,
    pub created_at: Timestamp,
    pub updated_at: Timestamp,
    pub summary: Option<Summary>,
    pub state: Option<ActivityState>,
    pub cwd: Option<String>,
    pub extensions: Vec<Extension>,
}

/// `b` is `a` with nothing changed but, possibly, its update time.
pub open spec fn same_identity(a: Assignment, b: Assignment) -> bool {
    &&& b.version == a.version
    &&& b.session_id == a.session_id
    &&& b.name == a.name
    &&& b.slug == a.slug
    &&& b.first_name == a.first_name
    &&& b.family_name == a.family_name
    &&& b.realm == a.realm
    &&& b.created_at == a.created_at
    &&& b.summary == a.summary
    &&& b.state == a.state
    &&& b.cwd == a.cwd
    &&& b.extensions == a.extensions
}

impl Assignment {
    /// The assignment with its update time set to `now`, as registering an
    /// already registered session leaves it.
    pub fn refreshed(self, now: Timestamp) -> (r: Assignment)
        ensures
            same_identity(self, r),
            r.updated_at == now,
    {
        let mut a = self;
        a.updated_at = now;
        a
    }
}

// ---------------------------------------------------------------------
// Allocating a name
// ---------------------------------------------------------------------

/// How many names are tried for a session before allocation gives up.
pub const ATTEMPTS: u64 = 100_000;

/// The text whose digest picks the name for an attempt:
/// `"{session_id}:{attempt}"`.
pub open spec fn attempt_text(session_id: Seq<char>, attempt: nat) -> Seq<char> {
    session_id + seq![':'] + decimal(attempt)
}

/// A name proposed for a session, to be claimed in the registry.
#[derive(Debug, PartialEq, Eq)]
pub struct Candidate {
    pub attempt: u64,
    pub first_name: String,
    pub family_name: String,
    pub name: String,
    pub slug: String,
}

/// The allocation of a name to a session that has none: the normalized
/// request and the attempts made so far.
#[derive(Debug)]
pub struct Allocation {
    session_id: String,
    realm: String,
    requested_family: Option<String>,
    first_names: Vec<&'static str>,
    family_names: Vec<&'static str>,
    next_attempt: u64,
}

impl Allocation {
    #[verifier::type_invariant]
    spec fn well_formed(self) -> bool {
        &&& self.first_names@.len() > 0
        &&& self.family_names@.len() > 0
        &&& self.next_attempt <= ATTEMPTS
        &&& str_views(self.first_names@) == line_words(FIRST_NAME_DATA@)
        &&& str_views(self.family_names@) == line_words(FAMILY_NAME_DATA@)
    }

    /// The session the name is for.
    pub closed spec fn session(self) -> Seq<char> {
        self.session_id@
    }

    /// The normalized realm.
    pub closed spec fn realm_name(self) -> Seq<char> {
        self.realm@
    }

    /// The normalized family name that was asked for, if any.
    pub closed spec fn requested(self) -> Option<Seq<char>> {
        match self.requested_family {
            Some(f) => Some(f@),
            None => None,
        }
    }

    /// The first names drawn from.
    pub closed spec fn firsts(self) -> Seq<Seq<char>> {
        str_views(self.first_names@)
    }

    /// The family names drawn from when none was asked for.
    pub closed spec fn families(self) -> Seq<Seq<char>> {
        str_views(self.family_names@)
    }

    /// The next attempt to be made.
    pub closed spec fn next(self) -> nat {
        self.next_attempt as nat
    }

    /// The normalized realm.
    pub fn realm(&self) -> (r: &str)
        ensures
            r@ == self.realm_name(),
    {
        self.realm.as_str()
    }

    /// `self` and `other` allocate for the same request.
    pub open spec fn same_request(self, other: Allocation) -> bool {
        &&& other.session() == self.session()
        &&& other.realm_name() == self.realm_name()
        &&& other.requested() == self.requested()
        &&& other.firsts() == self.firsts()
        &&& other.families() == self.families()
    }

    /// The digest that picks the names of an attempt.
    pub open spec fn digest_for(self, attempt: nat) -> Seq<u8> {
        text_digest(attempt_text(self.session(), attempt))
    }

    /// The first name of an attempt, as listed: the one at the index given by
    /// the digest's first eight bytes.
    pub open spec fn raw_first(self, attempt: nat) -> Seq<char> {
        self.firsts()[index_from(
            be_value(self.digest_for(attempt).subrange(0, 8)),
            self.firsts().len(),
        ) as int]
    }

    /// The family name of an attempt: the one asked for, or the listed one at
    /// the index given by the digest's second eight bytes.
    pub open spec fn raw_family(self, attempt: nat) -> Seq<char> {
        match self.requested() {
            Some(f) => f,
            None => self.families()[index_from(
                be_value(self.digest_for(attempt).subrange(8, 16)),
                self.families().len(),
            ) as int],
        }
    }

    /// An attempt is passed over when its first and family names are the same.
    pub open spec fn usable(self, attempt: nat) -> bool {
        self.raw_first(attempt) != self.raw_family(attempt)
    }

    /// `c` is the name that attempt `c.attempt` proposes.
    pub open spec fn proposes(self, c: Candidate) -> bool {
        &&& c.first_name@ == title(self.raw_first(c.attempt as nat))
        &&& c.family_name@ == title(self.raw_family(c.attempt as nat))
        &&& c.name@ == name_text(c.first_name@, c.family_name@, self.realm_name())
        &&& c.slug@ == slug_text(c.first_name@, c.family_name@, self.realm_name())
    }

    /// Starts allocating a name for `session_id`: the realm and the requested
    /// family name are normalized, and the bundled name lists loaded.
    pub fn new(session_id: &str, family_name: Option<&str>, realm: &str) -> (r: Result<
        Allocation,
        RegistryError,
    >)
        ensures
            r is Ok <==> {
                &&& normalized(realm@) is Some
                &&& family_name matches Some(f) ==> normalized(f@) is Some
                &&& line_words(FIRST_NAME_DATA@).len() > 0
                &&& line_words(FAMILY_NAME_DATA@).len() > 0
            },
            r matches Ok(a) ==> {
                &&& a.session() == session_id@
                &&& normalized(realm@) == Some(a.realm_name())
                &&& family_name matches Some(f) ==> normalized(f@) == a.requested()
                &&& family_name is None ==> a.requested() is None
                &&& a.firsts() == line_words(FIRST_NAME_DATA@)
                &&& a.families() == line_words(FAMILY_NAME_DATA@)
                &&& a.next() == 0
            },
            r matches Err(e) ==> if normalized(realm@) is None {
                e matches RegistryError::InvalidComponent { kind: k } && k@ == "realm"@
            } else if family_name matches Some(f) && normalized(f@) is None {
                e matches RegistryError::InvalidComponent { kind: k } && k@ == "family name"@
            } else {
                e is EmptyNameLists
            },
    {
        let realm = normalize_component(realm, "realm")?;
        let requested_family = match family_name {
            Some(f) => Some(normalize_component(f, "family name")?),
            None => None,
        };
        let first_names = first_names();
        let family_names = family_names();
        if first_names.len() == 0 || family_names.len() == 0 {
            return Err(RegistryError::EmptyNameLists);
        }
        Ok(
            Allocation {
                session_id: owned(session_id),
                realm,
                requested_family,
                first_names,
                family_names,
                next_attempt: 0,
            },
        )
    }

    fn seed_text(&self, attempt: u64) -> (s: String)
        ensures
            s@ == attempt_text(self.session(), attempt as nat),
    {
        let mut s = owned(self.session_id.as_str());
        push_chars(&mut s, &vec![':']);
        push_chars(&mut s, &decimal_chars(attempt as u128));
        s
    }

    fn raw_pair(&self, attempt: u64) -> (r: (&'static str, String))
        ensures
            r.0@ == self.raw_first(attempt as nat),
            r.1@ == self.raw_family(attempt as nat),
    {
        proof {
            use_type_invariant(self);
        }
        let seed = self.seed_text(attempt);
        let d = digest_text(seed.as_str());
        let first_index = pick_index(be_u64_at(&d, 0), self.first_names.len());
        let family_index = pick_index(be_u64_at(&d, 8), self.family_names.len());
        let family = match &self.requested_family {
            Some(f) => f.clone(),
            None => owned(self.family_names[family_index]),
        };
        (self.first_names[first_index], family)
    }

    fn candidate(&self, attempt: u64, first: &str, family: &str) -> (c: Candidate)
        requires
            first@ == self.raw_first(attempt as nat),
            family@ == self.raw_family(attempt as nat),
        ensures
            c.attempt == attempt,
            self.proposes(c),
    {
        let first_name = title_word(first);
        let family_name = title_word(family);
        let name = canonical_name(first_name.as_str(), family_name.as_str(), self.realm.as_str());
        let slug = slug(first_name.as_str(), family_name.as_str(), self.realm.as_str());
        Candidate { attempt, first_name, family_name, name, slug }
    }

    /// The next name to claim: that of the first remaining attempt whose
    /// first and family names differ, or none when every attempt is used up.
    pub fn next_candidate(&mut self) -> (r: Option<Candidate>)
        ensures
            old(self).same_request(*final(self)),
            r matches Some(c) ==> {
                &&& old(self).next() <= c.attempt < ATTEMPTS
                &&& old(self).usable(c.attempt as nat)
                &&& old(self).proposes(c)
                &&& forall|a: nat| old(self).next() <= a < c.attempt ==> !old(self).usable(a)
                &&& final(self).next() == c.attempt + 1
                &&& exists|i: int|
                    0 <= i < line_words(FIRST_NAME_DATA@).len() && c.first_name@ == title(
                        #[trigger] line_words(FIRST_NAME_DATA@)[i],
                    )
                &&& old(self).requested() matches Some(f) ==> c.family_name@ == title(f)
                &&& old(self).requested() is None ==> exists|i: int|
                    0 <= i < line_words(FAMILY_NAME_DATA@).len() && c.family_name@ == title(
                        #[trigger] line_words(FAMILY_NAME_DATA@)[i],
                    )
            },
            r is None ==> {
                &&& forall|a: nat| old(self).next() <= a < ATTEMPTS ==> !old(self).usable(a)
                &&& final(self).next() == ATTEMPTS
            },
    {
        proof {
            use_type_invariant(&*self);
        }
        let ghost start = self.next();
        let ghost initial = *self;
        while self.next_attempt < ATTEMPTS
            invariant
                initial == *old(self),
                initial.same_request(*self),
                initial.next() == start,
                start <= self.next() <= ATTEMPTS,
                forall|a: nat| start <= a < self.next() ==> !initial.usable(a),
            decreases ATTEMPTS - self.next_attempt,
        {
            proof {
                use_type_invariant(&*self);
            }
            let attempt = self.next_attempt;
            let (first, family) = self.raw_pair(attempt);
            assert(self.raw_first(attempt as nat) == initial.raw_first(attempt as nat));
            assert(self.raw_family(attempt as nat) == initial.raw_family(attempt as nat));
            let c = self.candidate(attempt, first, family.as_str());
            self.next_attempt = attempt + 1;
            let same = chars_equal(&chars_of(first), &chars_of(family.as_str()));
            if !same {
                proof {
                    initial.lemma_names_from_lists(attempt as nat);
                }
                return Some(c);
            }
        }
        None
    }

    /// Every attempt draws its first name from the bundled first-name list
    /// and, when no family name was asked for, its family name from the
    /// bundled family-name list.
    pub proof fn lemma_names_from_lists(self, attempt: nat)
        requires
            self.firsts() == line_words(FIRST_NAME_DATA@),
            self.families() == line_words(FAMILY_NAME_DATA@),
            self.firsts().len() > 0,
            self.families().len() > 0,
        ensures
            exists|i: int|
                0 <= i < line_words(FIRST_NAME_DATA@).len() && self.raw_first(attempt)
                    == #[trigger] line_words(FIRST_NAME_DATA@)[i],
            self.requested() is None ==> exists|i: int|
                0 <= i < line_words(FAMILY_NAME_DATA@).len() && self.raw_family(attempt)
                    == #[trigger] line_words(FAMILY_NAME_DATA@)[i],
    {
        let d = self.digest_for(attempt);
        let i = index_from(be_value(d.subrange(0, 8)), self.firsts().len()) as int;
        assert(0 <= i < line_words(FIRST_NAME_DATA@).len());
        let j = index_from(be_value(d.subrange(8, 16)), self.families().len()) as int;
        assert(0 <= j < line_words(FAMILY_NAME_DATA@).len());
        assert(self.raw_first(attempt) == line_words(FIRST_NAME_DATA@)[i]);
        if self.requested() is None {
            assert(self.raw_family(attempt) == line_words(FAMILY_NAME_DATA@)[j]);
        }
    }

    /// A name proposed for a session is found by a lookup of its canonical
    /// name and by a lookup of its slug, when its listed parts are valid name
    /// components.
    pub proof fn lemma_proposed_name_found(self, c: Candidate)
        requires
            self.proposes(c),
            valid_component(self.raw_first(c.attempt as nat)),
            valid_component(self.raw_family(c.attempt as nat)),
            is_normal(self.realm_name()),
        ensures
            lookup_slug_list(c.name@) == seq![c.slug@],
            lookup_slug_list(c.slug@) == seq![c.slug@],
    {
        lemma_title_is_normal(self.raw_first(c.attempt as nat));
        lemma_title_is_normal(self.raw_family(c.attempt as nat));
        lemma_lookup_finds_names(c.first_name@, c.family_name@, self.realm_name());
    }

    /// When a family name was asked for, in normal form, every name
    /// proposed has that family name.
    pub proof fn lemma_requested_family_kept(self, c: Candidate)
        requires
            self.proposes(c),
            self.requested() is Some,
            is_normal(self.requested()->0),
        ensures
            c.family_name@ == self.requested()->0,
    {
        lemma_normal_title_fixed(self.requested()->0);
    }

    /// The first and family names of a proposed name differ, after
    /// title-casing too, when the attempt is usable and the names it draws
    /// are in normal form.
    pub proof fn lemma_proposed_names_differ(self, c: Candidate)
        requires
            self.proposes(c),
            self.usable(c.attempt as nat),
            is_normal(self.raw_first(c.attempt as nat)),
            is_normal(self.raw_family(c.attempt as nat)),
        ensures
            c.first_name@ != c.family_name@,
    {
        lemma_normal_title_fixed(self.raw_first(c.attempt as nat));
        lemma_normal_title_fixed(self.raw_family(c.attempt as nat));
    }

    /// Two allocations for the same request, at the same attempt, propose the
    /// same name: the first usable attempt from there, and the names it draws.
    /// (Two calls of `new` with equal arguments give such allocations.)
    pub proof fn lemma_same_request_same_name(
        self,
        other: Allocation,
        c: Candidate,
        d: Candidate,
    )
        requires
            self.same_request(other),
            self.next() == other.next(),
            self.next() <= c.attempt,
            self.usable(c.attempt as nat),
            self.proposes(c),
            forall|a: nat| self.next() <= a < c.attempt ==> !self.usable(a),
            other.next() <= d.attempt,
            other.usable(d.attempt as nat),
            other.proposes(d),
            forall|a: nat| other.next() <= a < d.attempt ==> !other.usable(a),
        ensures
            c.attempt == d.attempt,
            c.first_name@ == d.first_name@,
            c.family_name@ == d.family_name@,
            c.name@ == d.name@,
            c.slug@ == d.slug@,
    {
        assert forall|a: nat| #[trigger] self.usable(a) == other.usable(a) by {
            assert(self.raw_first(a) == other.raw_first(a));
            assert(self.raw_family(a) == other.raw_family(a));
        }
        if c.attempt < d.attempt {
            assert(!other.usable(c.attempt as nat));
        }
        if d.attempt < c.attempt {
            assert(!self.usable(d.attempt as nat));
        }
        assert(self.raw_first(c.attempt as nat) == other.raw_first(d.attempt as nat));
        assert(self.raw_family(c.attempt as nat) == other.raw_family(d.attempt as nat));
    }

    /// The assignment made when the candidate's name is claimed at `now`.
    pub fn assign(&self, c: Candidate, now: Timestamp) -> (a: Assignment)
        ensures
            a.version == 1,
            a.session_id@ == self.session(),
            a.name == c.name,
            a.slug == c.slug,
            a.first_name == c.first_name,
            a.family_name == c.family_name,
            a.realm@ == self.realm_name(),
            a.created_at == now,
            a.updated_at == now,
            a.summary is None,
            a.state is None,
            a.cwd is None,
            a.extensions@.len() == 0,
    {
        Assignment {
            version: 1,
            session_id: self.session_id.clone(),
            name: c.name,
            slug: c.slug,
            first_name: c.first_name,
            family_name: c.family_name,
            realm: self.realm.clone(),
            created_at: now,
            updated_at: now,
            summary: None,
            state: None,
            cwd: None,
            extensions: Vec::new(),
        }
    }
}

// ---------------------------------------------------------------------
// The registry's layout
// ---------------------------------------------------------------------

/// `std::path::PathBuf`, declared so that a registry can hold its root
/// directory; its contents are opaque here.
#[verifier::external_type_specification]
#[verifier::external_body]
pub struct ExPathBuf(PathBuf);

/// `<PathBuf as Clone>::clone`: the contract claims that the copy is the same
/// path as the original.
#[verifier::external_body]
fn clone_path(p: &PathBuf) -> (r: PathBuf)
    ensures
        r == *p,
{
    p.clone()
}

/// The directory, under the registry's root, that holds one assignment file
/// per session.
pub const SESSION_DIR: &'static str = "by-session";

/// The directory, under the registry's root, that holds one claim file per
/// slug, naming the session that owns it.
pub const NAME_DIR: &'static str = "by-name";

/// A file or directory of a registry: the registry's root directory and the
/// names below it, outermost first (`root/parts[0]/parts[1]/...`).
#[derive(Debug)]
pub struct RegistryPath {
    pub root: PathBuf,
    pub parts: Vec<String>,
}

impl RegistryPath {
    /// The names below the root, outermost first.
    pub open spec fn names(self) -> Seq<Seq<char>> {
        string_views(self.parts@)
    }
}

/// A registry rooted at a directory.
#[derive(Debug)]
pub struct Registry {
    root: PathBuf,
}

impl Registry {
    /// The registry's root directory.
    pub closed spec fn root_path(self) -> PathBuf {
        self.root
    }

    /// The registry rooted at `root`.
    pub fn new(root: PathBuf) -> (r: Registry)
        ensures
            r.root_path() == root,
    {
        Registry { root }
    }

    /// The registry's root directory.
    pub fn root(&self) -> (r: &PathBuf)
        ensures
            *r == self.root_path(),
    {
        &self.root
    }

    fn below_root(&self, first: &str, second: Option<String>) -> (r: RegistryPath)
        ensures
            r.root == self.root_path(),
            r.names() == match second {
                Some(x) => seq![first@, x@],
                None => seq![first@],
            },
    {
        let mut parts: Vec<String> = Vec::new();
        parts.push(owned(first));
        match second {
            Some(x) => {
                parts.push(x);
                assert(string_views(parts@) =~= seq![first@, x@]);
            },
            None => {
                assert(string_views(parts@) =~= seq![first@]);
            },
        }
        RegistryPath { root: clone_path(&self.root), parts }
    }

    /// `root/by-session`.
    pub fn sessions_dir(&self) -> (r: RegistryPath)
        ensures
            r.root == self.root_path(),
            r.names() == seq![SESSION_DIR@],
    {
        self.below_root(SESSION_DIR, None)
    }

    /// `root/by-name`.
    pub fn names_dir(&self) -> (r: RegistryPath)
        ensures
            r.root == self.root_path(),
            r.names() == seq![NAME_DIR@],
    {
        self.below_root(NAME_DIR, None)
    }

    /// `root/by-session/{session_id}.json`.
    pub fn session_path(&self, session_id: &str) -> (r: RegistryPath)
        ensures
            r.root == self.root_path(),
            r.names() == seq![SESSION_DIR@, session_file_name_text(session_id@)],
    {
        self.below_root(SESSION_DIR, Some(session_file_name(session_id)))
    }

    /// `root/by-name/{slug}`.
    pub fn claim_path(&self, slug: &str) -> (r: RegistryPath)
        ensures
            r.root == self.root_path(),
            r.names() == seq![NAME_DIR@, slug@],
    {
        self.below_root(NAME_DIR, Some(owned(slug)))
    }
}

// ---------------------------------------------------------------------
// Claims on names
// ---------------------------------------------------------------------

/// The outcome of claiming a name for a session.
#[derive(Debug, Clone, Copy, PartialEq, Eq, Structural)]
pub enum Claim {
    /// The claim was created for the session.
    Claimed,
    /// The session already held the claim.
    Owned,
    /// Another session holds the claim.
    Other,
}

impl Claim {
    /// The outcome when a claim file already exists with contents `owner`.
    pub fn of_existing(owner: &str, session_id: &str) -> (r: Claim)
        ensures
            r == (if trim(owner@) == session_id@ {
                Claim::Owned
            } else {
                Claim::Other
            }),
    {
        let t = trimmed_chars(owner);
        let s = chars_of(session_id);
        if chars_equal(&t, &s) {
            Claim::Owned
        } else {
            Claim::Other
        }
    }

    /// Whether the session may take the name.
    pub fn keeps_name(&self) -> (r: bool)
        ensures
            r == !(*self is Other),
    {
        match self {
            Claim::Other => false,
            _ => true,
        }
    }
}

// ---------------------------------------------------------------------
// Lookup
// ---------------------------------------------------------------------

/// A place where a lookup searches for an assignment.
#[derive(Debug, PartialEq, Eq)]
pub enum LookupStep {
    /// The assignment file of a session, when it exists.
    Session(String),
    /// The claim file of a slug, when it exists, and the session it names.
    NameClaim(String),
}

/// The steps of a lookup, in order.
#[derive(Debug)]
pub struct LookupPlan {
    /// The identifier, trimmed.
    pub input: String,
    pub steps: Vec<LookupStep>,
}

/// `steps` are the lookup steps for the trimmed identifier `t`: its session
/// file when `t` is a valid session ID, then the claims of its slugs.
pub open spec fn lookup_steps_for(steps: Seq<LookupStep>, t: Seq<char>) -> bool {
    let k: int = if safe_session_id(t) {
        1
    } else {
        0
    };
    let slugs = lookup_slug_list(t);
    &&& steps.len() == k + slugs.len()
    &&& k == 1 ==> (steps[0] matches LookupStep::Session(s) && s@ == t)
    &&& forall|i: int|
        k <= i < steps.len() ==> (#[trigger] steps[i] matches LookupStep::NameClaim(s) && s@
            == slugs[i - k])
}

/// The plan for looking up `input`: a session ID, a canonical name or a slug.
pub fn plan_lookup(input: &str) -> (r: Result<LookupPlan, RegistryError>)
    ensures
        r is Ok <==> trim(input@).len() > 0,
        r matches Ok(p) ==> p.input@ == trim(input@) && lookup_steps_for(p.steps@, trim(input@)),
        r matches Ok(p) ==> (safe_session_id(trim(input@)) <==> (p.steps@.len() > 0
            && p.steps@[0] is Session)),
        r matches Ok(p) ==> (safe_session_id(trim(input@)) ==> (p.steps@[0] matches LookupStep::Session(
            s,
        ) && s@ == trim(input@))),
        r matches Ok(p) ==> forall|i: int|
            0 < i < p.steps@.len() ==> (#[trigger] p.steps@[i]) is NameClaim,
        r matches Err(e) ==> e matches RegistryError::Empty { kind: k } && k@ == "lookup identifier"@,
{
    let trimmed = require_nonempty(input, "lookup identifier")?;
    proof {
        lemma_trim_idempotent(input@);
    }
    let mut steps: Vec<LookupStep> = Vec::new();
    assert(trim(trimmed@) == trimmed@);
    let checked = validate_session_id(trimmed.as_str());
    if let Ok(session_id) = checked {
        steps.push(LookupStep::Session(session_id));
    }
    let ghost k: int = if safe_session_id(trimmed@) {
        1
    } else {
        0
    };
    assert(steps@.len() == k);
    let slugs = lookup_slugs(trimmed.as_str());
    let ghost list = lookup_slug_list(trimmed@);
    let mut i: usize = 0;
    while i < slugs.len()
        invariant
            i <= slugs.len(),
            k == 0 || k == 1,
            k == 1 ==> (steps@[0] matches LookupStep::Session(s) && s@ == trimmed@),
            crate::naming::string_views(slugs@) == list,
            steps@.len() == k + i,
            forall|j: int|
                0 <= j < i ==> (#[trigger] steps@[k + j] matches LookupStep::NameClaim(s) && s@
                    == list[j]),
        decreases slugs.len() - i,
    {
        steps.push(LookupStep::NameClaim(slugs[i].clone()));
        assert(crate::naming::string_views(slugs@)[i as int] == slugs@[i as int]@);
        i += 1;
    }
    proof {
        assert forall|j: int| k <= j < steps@.len() implies (#[trigger] steps@[j] matches LookupStep::NameClaim(
            s,
        ) && s@ == list[j - k]) by {
            assert(steps@[k + (j - k)] == steps@[j]);
        }
        lemma_lookup_session_first(steps@, trimmed@);
    }
    Ok(LookupPlan { input: trimmed, steps })
}

/// A lookup tries the session file first exactly when the trimmed
/// identifier is a valid session ID, whatever its length, and that step
/// names the identifier itself; every other step is the claim of a slug.
pub proof fn lemma_lookup_session_first(steps: Seq<LookupStep>, t: Seq<char>)
    requires
        lookup_steps_for(steps, t),
    ensures
        safe_session_id(t) <==> (steps.len() > 0 && steps[0] is Session),
        safe_session_id(t) ==> (steps[0] matches LookupStep::Session(s) && s@ == t),
        forall|i: int| 0 < i < steps.len() ==> (#[trigger] steps[i]) is NameClaim,
{
    let k: int = if safe_session_id(t) {
        1
    } else {
        0
    };
    let slugs = lookup_slug_list(t);
    assert forall|i: int| k <= i < steps.len() implies (#[trigger] steps[i]) is NameClaim by {}
}

/// The assignment read for `session_id`, refused when it names another
/// session.
pub fn owned_by(assignment: Assignment, session_id: &str) -> (r: Result<Assignment, RegistryError>)
    ensures
        r is Ok <==> assignment.session_id@ == session_id@,
        r matches Ok(a) ==> a == assignment,
        r matches Err(e) ==> e matches RegistryError::ForeignEntry { session_id: s } && s@
            == session_id@,
{
    if !str_equal(assignment.session_id.as_str(), session_id) {
        return Err(RegistryError::ForeignEntry { session_id: owned(session_id) });
    }
    Ok(assignment)
}

// ---------------------------------------------------------------------
// Sessions and realms from the environment
// ---------------------------------------------------------------------

/// The value that is given and not blank, trimmed.
pub open spec fn given(v: Option<&str>) -> Option<Seq<char>> {
    match v {
        Some(s) => if trim(s@).len() > 0 {
            Some(trim(s@))
        } else {
            None
        },
        None => None,
    }
}

fn given_text(v: Option<&str>) -> (r: Option<String>)
    ensures
        r matches Some(s) ==> given(v) == Some(s@),
        r is None ==> given(v) is None,
{
    match v {
        Some(s) => {
            let t = trimmed_chars(s);
            if t.len() > 0 {
                Some(crate::text::string_of(&t))
            } else {
                None
            }
        },
        None => None,
    }
}

/// The session ID: the one given explicitly, else the one from
/// `AGENT_ID_SESSION_ID`, trimmed; blank values count as absent.
pub fn choose_session(explicit: Option<&str>, from_env: Option<&str>) -> (r: Result<
    String,
    RegistryError,
>)
    ensures
        given(explicit) matches Some(s) ==> (r matches Ok(x) && x@ == s),
        given(explicit) is None ==> (given(from_env) matches Some(s) ==> (r matches Ok(x) && x@
            == s)),
        given(explicit) is None && given(from_env) is None ==> (r matches Err(e) && e is NoSession),
{
    if let Some(s) = given_text(explicit) {
        return Ok(s);
    }
    if let Some(s) = given_text(from_env) {
        return Ok(s);
    }
    Err(RegistryError::NoSession)
}

/// The realm set by `--realm` or else by `AGENT_REALM`, normalized; none when
/// both are absent or blank, and the configuration file decides.
pub fn configured_realm(explicit: Option<&str>, from_env: Option<&str>) -> (r: Option<
    Result<String, RegistryError>,
>)
    ensures
        given(explicit) matches Some(s) ==> (r matches Some(x) && normalizes_to(x, s, "realm"@)),
        given(explicit) is None ==> (given(from_env) matches Some(s) ==> (r matches Some(x)
            && normalizes_to(x, s, "realm"@))),
        given(explicit) is None && given(from_env) is None ==> r is None,
{
    if let Some(s) = given_text(explicit) {
        proof {
            lemma_trim_idempotent(s@);
        }
        return Some(normalize_component(s.as_str(), "realm"));
    }
    if let Some(s) = given_text(from_env) {
        proof {
            lemma_trim_idempotent(s@);
        }
        return Some(normalize_component(s.as_str(), "realm"));
    }
    None
}

/// The text whose digest picks a realm: `"{nanos}:{pid}:{hostname}"`.
pub open spec fn realm_seed_text(nanos: nat, pid: nat, hostname: Seq<char>) -> Seq<char> {
    decimal(nanos) + seq![':'] + decimal(pid) + seq![':'] + hostname
}

/// `format!("{nanos}:{pid}:{hostname}")`.
pub fn realm_seed(nanos: u128, pid: u32, hostname: &str) -> (r: String)
    ensures
        r@ == realm_seed_text(nanos as nat, pid as nat, hostname@),
{
    let mut r = String::new();
    push_chars(&mut r, &decimal_chars(nanos));
    push_chars(&mut r, &vec![':']);
    push_chars(&mut r, &decimal_chars(pid as u128));
    push_chars(&mut r, &vec![':']);
    push_str(&mut r, hostname);
    r
}

/// The realm picked for a machine that has none: the bundled realm at the
/// index given by the first eight bytes of the seed's digest, normalized.
pub fn realm_from_seed(seed: &str) -> (r: Result<String, RegistryError>)
    ensures
        line_words(REALM_DATA@).len() == 0 ==> (r matches Err(e) && e is NoRealmCandidates),
        line_words(REALM_DATA@).len() > 0 ==> normalizes_to(
            r,
            line_words(REALM_DATA@)[text_index(seed@, line_words(REALM_DATA@).len()) as int],
            "realm"@,
        ),
{
    let candidates = candidate_realms();
    if candidates.len() == 0 {
        return Err(RegistryError::NoRealmCandidates);
    }
    let d = digest_text(seed);
    let index = pick_index(be_u64_at(&d, 0), candidates.len());
    assert(str_views(candidates@)[index as int] == candidates@[index as int]@);
    normalize_component(candidates[index], "realm")
}

} // verus!
