//! The bundled name lists: first names, family names and realms.
use vstd::prelude::*;

use crate::text::{chars_between, chars_of, contains_chars, line_segments, trim, trim_range, views};

verus! {

broadcast use vstd::string::group_string_axioms;

/// First names: fungi, herbs, knots, features of nature, stars and winds,
/// one per line.
pub const FIRST_NAME_DATA: &'static str = "
    Amanita
    Bolete
    Chanterelle
    Enoki
    Morel
    Puffball
    Russula
    Shiitake
    Truffle
    Basil
    Borage
    Chervil
    Dill
    Fennel
    Hyssop
    Lovage
    Sage
    Sorrel
    Tansy
    Thyme
    Yarrow
    Bowline
    Clove
    Hitch
    Prusik
    Reef
    Sheepshank
    Aspen
    Brook
    Cedar
    Dawn
    Dusk
    Ember
    Fern
    Frost
    Heather
    Meadow
    Moss
    Rowan
    Spring
    Thistle
    Willow
    Aldebaran
    Altair
    Antares
    Arcturus
    Capella
    Castor
    Deneb
    Mira
    Polaris
    Pollux
    Rigel
    Sirius
    Spica
    Vega
    Bora
    Chinook
    Etesian
    Foehn
    Harmattan
    Khamsin
    Levante
    Mistral
    Simoom
    Sirocco
    Tramontane
    Zephyr
";

/// Family names: words of shipping and of the trades, one per line.
pub const FAMILY_NAME_DATA: &'static str = "
    Anchor
    Bollard
    Bosun
    Capstan
    Davit
    Galley
    Harbor
    Hawser
    Jib
    Keel
    Mast
    Oak
    Rudder
    Spar
    Tiller
    Wharf
    Baker
    Carter
    Chandler
    Cooper
    Dyer
    Fletcher
    Glazier
    Mason
    Miller
    Potter
    Sawyer
    Smith
    Tanner
    Thatcher
    Tinker
    Turner
    Weaver
    Wright
";

/// Realms that a machine may be given when none is configured, one per line.
pub const REALM_DATA: &'static str = "
    Ashford
    Darkwood
    Duskmoor
    Emberfall
    Frostgard
    Goldcrest
    Highmarsh
    Ironvale
    Mistmoor
    Ravenmere
    Silverfen
    Stonebrook
    Stormhold
    Thornwick
";

/// The character sequences held by a vector of string slices.
pub open spec fn str_views(v: Seq<&str>) -> Seq<Seq<char>> {
    v.map_values(|s: &str| s@)
}

/// One step of `kept_words`: the trimmed segment is kept when it is not blank
/// and not already kept.
pub open spec fn keep_step(kept: Seq<Seq<char>>, segment: Seq<char>) -> Seq<Seq<char>> {
    let w = trim(segment);
    if w.len() > 0 && !kept.contains(w) {
        kept.push(w)
    } else {
        kept
    }
}

/// The trimmed, non-blank segments, each kept at its first occurrence.
pub open spec fn kept_words(segments: Seq<Seq<char>>) -> Seq<Seq<char>>
    decreases segments.len(),
{
    if segments.len() == 0 {
        Seq::empty()
    } else {
        keep_step(kept_words(segments.drop_last()), segments.last())
    }
}

/// The distinct non-blank lines of `data`, trimmed, in order of first
/// appearance.
pub open spec fn line_words(data: Seq<char>) -> Seq<Seq<char>> {
    kept_words(line_segments(data))
}

fn keep_word<'a>(
    data: &'a str,
    chars: &Vec<char>,
    lo: usize,
    hi: usize,
    words: &mut Vec<&'a str>,
    seen: &mut Vec<Vec<char>>,
)
    requires
        chars@ == data@,
        lo <= hi <= chars.len(),
        str_views(old(words)@) == views(old(seen)@),
    ensures
        str_views(final(words)@) == views(final(seen)@),
        views(final(seen)@) == keep_step(views(old(seen)@), chars@.subrange(lo as int, hi as int)),
{
    let (a, b) = trim_range(chars, lo, hi);
    if a < b {
        let w = chars_between(chars, a, b);
        if !contains_chars(seen, &w) {
            let word = data.substring_char(a, b);
            let ghost before_words = words@;
            let ghost before_seen = seen@;
            words.push(word);
            seen.push(w);
            assert(str_views(words@) =~= str_views(before_words).push(word@));
            assert(views(seen@) =~= views(before_seen).push(w@));
        }
    }
}

/// The distinct non-blank lines of `data`, trimmed, in order of first
/// appearance.
pub fn unique_words<'a>(data: &'a str) -> (r: Vec<&'a str>)
    ensures
        str_views(r@) == line_words(data@),
{
    let chars = chars_of(data);
    let mut words: Vec<&'a str> = Vec::new();
    let mut seen: Vec<Vec<char>> = Vec::new();
    let mut start: usize = 0;
    let mut i: usize = 0;
    assert(chars@.take(0) =~= Seq::<char>::empty());
    assert(str_views(words@) =~= views(seen@));
    while i < chars.len()
        invariant
            chars@ == data@,
            start <= i <= chars.len(),
            line_segments(chars@.take(i as int)).len() >= 1,
            line_segments(chars@.take(i as int)).last() == chars@.subrange(start as int, i as int),
            views(seen@) == kept_words(line_segments(chars@.take(i as int)).drop_last()),
            str_views(words@) == views(seen@),
        decreases chars.len() - i,
    {
        let ghost segs = line_segments(chars@.take(i as int));
        let ghost next = chars@.take(i + 1);
        assert(next.drop_last() =~= chars@.take(i as int));
        if chars[i] == '\n' {
            keep_word(data, &chars, start, i, &mut words, &mut seen);
            assert(segs =~= segs.drop_last().push(segs.last()));
            assert(line_segments(next) == segs.push(Seq::empty()));
            assert(line_segments(next).drop_last() =~= segs);
            start = i + 1;
            assert(chars@.subrange(start as int, i + 1) =~= Seq::<char>::empty());
        } else {
            assert(line_segments(next) == segs.update(segs.len() - 1, segs.last().push(chars@[i as int])));
            assert(line_segments(next).drop_last() =~= segs.drop_last());
            assert(chars@.subrange(start as int, i + 1) =~= chars@.subrange(start as int, i as int).push(chars@[i as int]));
        }
        i += 1;
    }
    let ghost segs = line_segments(chars@.take(i as int));
    keep_word(data, &chars, start, i, &mut words, &mut seen);
    assert(chars@.take(i as int) =~= data@);
    assert(segs =~= segs.drop_last().push(segs.last()));
    words
}

/// The bundled first names.
pub fn first_names() -> (r: Vec<&'static str>)
    ensures
        str_views(r@) == line_words(FIRST_NAME_DATA@),
{
    unique_words(FIRST_NAME_DATA)
}

/// The bundled family names.
pub fn family_names() -> (r: Vec<&'static str>)
    ensures
        str_views(r@) == line_words(FAMILY_NAME_DATA@),
{
    unique_words(FAMILY_NAME_DATA)
}

/// The bundled realms.
pub fn candidate_realms() -> (r: Vec<&'static str>)
    ensures
        str_views(r@) == line_words(REALM_DATA@),
{
    unique_words(REALM_DATA)
}

} // verus!
