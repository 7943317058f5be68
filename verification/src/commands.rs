//! The decisions of the default commands (`/tp`, `/kill`, `/damage`,
//! `/list`, `/op`, `/say`, `/echo`, `/nested`, `/gamemode`, `/stop`):
//! argument shapes, suggestions, targets and reply texts.

use vstd::prelude::*;
use vstd::arithmetic::power::pow;
use uuid::Uuid;
use crate::messages::{join_strs, decimal, push_decimal};
use crate::text::{chars_of, eq_lit, seq_starts_with, starts_with};

verus! {

// ---------------------------------------------------------------- /tp

/// Whether a word is a coordinate: relative (`~`), local (`^`), or a number
/// (`parses_as_number`: whether it parses as a floating-point number).
pub open spec fn coordinate(word: Seq<char>, parses_as_number: bool) -> bool {
    (word.len() > 0 && (word[0] == '~' || word[0] == '^')) || parses_as_number
}

/// Whether `token` is a coordinate; `parses_as_number` tells whether it
/// parses as a floating-point number.
pub fn is_coordinate(token: &str, parses_as_number: bool) -> (r: bool)
    ensures
        r == coordinate(token@, parses_as_number),
{
    let c = chars_of(token);
    (c.len() > 0 && (c[0] == '~' || c[0] == '^')) || parses_as_number
}

/// Why `/tp`'s arguments were refused.
#[derive(Clone, Copy, Debug, PartialEq, Eq, Structural)]
pub enum TpError {
    MissingArguments,
    InvalidCoordinates,
    TooManyArguments,
}

impl TpError {
    /// The parser error text.
    pub fn message(&self) -> (r: &'static str)
        ensures
            *self == TpError::MissingArguments ==> r@ == "missing arguments"@,
            *self == TpError::InvalidCoordinates ==> r@ == "invalid coordinates"@,
            *self == TpError::TooManyArguments ==> r@ == "too many arguments"@,
    {
        match self {
            TpError::MissingArguments => "missing arguments",
            TpError::InvalidCoordinates => "invalid coordinates",
            TpError::TooManyArguments => "too many arguments",
        }
    }
}

/// How `/tp`'s words are to be read.
#[derive(Clone, Copy, Debug, PartialEq, Eq, Structural)]
pub enum TpShape {
    /// `/tp <to-entity>`
    ToEntity,
    /// `/tp <from-entity> <to-entity>`
    FromEntityToEntity,
    /// `/tp <x> <y> <z>`
    ToPosition,
    /// `/tp <from-entity> <x> <y> <z>`
    FromEntityToPosition,
    /// Four words whose last three are not all coordinates: the first is
    /// still read as an entity (its error wins), then the coordinates are
    /// refused.
    FromEntityThenInvalidCoordinates,
    /// Refused outright.
    Invalid(TpError),
}

/// The shape of `/tp`'s arguments, given the number of words and which
/// words are coordinates.
pub open spec fn tp_shape(coords: Seq<bool>) -> TpShape {
    if coords.len() == 0 {
        TpShape::Invalid(TpError::MissingArguments)
    } else if coords.len() == 1 {
        TpShape::ToEntity
    } else if coords.len() == 2 {
        TpShape::FromEntityToEntity
    } else if coords.len() == 3 {
        if coords[0] && coords[1] && coords[2] {
            TpShape::ToPosition
        } else {
            TpShape::Invalid(TpError::InvalidCoordinates)
        }
    } else if coords.len() == 4 {
        if coords[1] && coords[2] && coords[3] {
            TpShape::FromEntityToPosition
        } else {
            TpShape::FromEntityThenInvalidCoordinates
        }
    } else {
        TpShape::Invalid(TpError::TooManyArguments)
    }
}

/// Which of `words` are coordinates.
pub open spec fn coordinate_flags(words: Seq<String>, numeric: Seq<bool>) -> Seq<bool> {
    Seq::new(words.len(), |i: int| coordinate(words[i]@, numeric[i]))
}

/// Reads `/tp`'s non-empty words: one entity; two entities; three
/// coordinates; an entity and three coordinates; anything else is refused.
/// `numeric[i]` tells whether `words[i]` parses as a number.
pub fn tp_argument_shape(words: &Vec<String>, numeric: &Vec<bool>) -> (r: TpShape)
    requires
        numeric.len() == words.len(),
    ensures
        r == tp_shape(coordinate_flags(words@, numeric@)),
{
    let n = words.len();
    let ghost flags = coordinate_flags(words@, numeric@);
    if n == 0 {
        TpShape::Invalid(TpError::MissingArguments)
    } else if n == 1 {
        TpShape::ToEntity
    } else if n == 2 {
        TpShape::FromEntityToEntity
    } else if n == 3 {
        if is_coordinate(words[0].as_str(), numeric[0]) && is_coordinate(words[1].as_str(), numeric[1])
            && is_coordinate(words[2].as_str(), numeric[2]) {
            TpShape::ToPosition
        } else {
            TpShape::Invalid(TpError::InvalidCoordinates)
        }
    } else if n == 4 {
        if is_coordinate(words[1].as_str(), numeric[1]) && is_coordinate(words[2].as_str(), numeric[2])
            && is_coordinate(words[3].as_str(), numeric[3]) {
            TpShape::FromEntityToPosition
        } else {
            TpShape::FromEntityThenInvalidCoordinates
        }
    } else {
        TpShape::Invalid(TpError::TooManyArguments)
    }
}

/// Where `/tp` sends its target: a position, by its three coordinate
/// words, or an entity, by its selector word.
pub enum TeleportTarget {
    Position(String, String, String),
    Entity(String),
}

/// `/tp`'s arguments: the entity to move (none: the sender) and where to.
/// The words are read afterwards by the entity and position parsers.
pub struct TpArgument {
    pub from: Option<String>,
    pub to: TeleportTarget,
}

/// A `/tp` argument as character sequences: the `from` word, the target
/// entity word, and the target's coordinate words (empty for an entity).
pub open spec fn tp_argument_view(a: TpArgument) -> (Option<Seq<char>>, Option<Seq<char>>, Seq<Seq<char>>) {
    let from = match a.from {
        Some(f) => Some(f@),
        None => None,
    };
    match a.to {
        TeleportTarget::Position(x, y, z) => (from, None, seq![x@, y@, z@]),
        TeleportTarget::Entity(e) => (from, Some(e@), Seq::empty()),
    }
}

impl TpArgument {
    /// Reads `/tp`'s non-empty words by their shape (see `tp_shape`). Four
    /// words whose last three are not all coordinates give `InvalidCoordinates`;
    /// `tp_argument_shape` tells this case apart, for a caller whose entity
    /// parser reports a bad first word ahead of it.
    pub fn parse(words: &Vec<String>, numeric: &Vec<bool>) -> (r: Result<TpArgument, TpError>)
        requires
            numeric.len() == words.len(),
        ensures
            match tp_shape(coordinate_flags(words@, numeric@)) {
                TpShape::ToEntity => r matches Ok(a) && tp_argument_view(a) == (None::<Seq<char>>,
                    Some(words@[0]@), Seq::<Seq<char>>::empty()),
                TpShape::FromEntityToEntity => r matches Ok(a) && tp_argument_view(a) == (Some(words@[0]@),
                    Some(words@[1]@), Seq::<Seq<char>>::empty()),
                TpShape::ToPosition => r matches Ok(a) && tp_argument_view(a) == (None::<Seq<char>>,
                    None::<Seq<char>>, seq![words@[0]@, words@[1]@, words@[2]@]),
                TpShape::FromEntityToPosition => r matches Ok(a) && tp_argument_view(a) == (Some(words@[0]@),
                    None::<Seq<char>>, seq![words@[1]@, words@[2]@, words@[3]@]),
                TpShape::FromEntityThenInvalidCoordinates => r matches Err(e) && e == TpError::InvalidCoordinates,
                TpShape::Invalid(e) => r matches Err(f) && f == e,
            },
    {
        match tp_argument_shape(words, numeric) {
            TpShape::ToEntity => Ok(TpArgument { from: None, to: TeleportTarget::Entity(words[0].clone()) }),
            TpShape::FromEntityToEntity => Ok(TpArgument {
                from: Some(words[0].clone()),
                to: TeleportTarget::Entity(words[1].clone()),
            }),
            TpShape::ToPosition => Ok(TpArgument {
                from: None,
                to: TeleportTarget::Position(words[0].clone(), words[1].clone(), words[2].clone()),
            }),
            TpShape::FromEntityToPosition => Ok(TpArgument {
                from: Some(words[0].clone()),
                to: TeleportTarget::Position(words[1].clone(), words[2].clone(), words[3].clone()),
            }),
            TpShape::FromEntityThenInvalidCoordinates => Err(TpError::InvalidCoordinates),
            TpShape::Invalid(e) => Err(e),
        }
    }
}

/// What to suggest for the word being typed: entities, coordinates.
pub open spec fn tp_suggest_kinds(coords: Seq<bool>) -> (bool, bool) {
    if coords.len() == 1 {
        (true, true)
    } else if coords.len() == 2 {
        if coords[0] { (false, true) } else { (true, true) }
    } else if coords.len() == 3 {
        if coords[0] { (false, true) } else if coords[1] { (false, true) } else { (false, false) }
    } else if coords.len() == 4 {
        if !coords[0] && coords[1] { (false, true) } else { (false, false) }
    } else {
        (false, false)
    }
}

/// Whether to suggest entities and whether to suggest coordinates for the
/// last of `words` (the input split at spaces).
pub fn tp_suggestion_kinds(words: &Vec<String>, numeric: &Vec<bool>) -> (r: (bool, bool))
    requires
        numeric.len() == words.len(),
    ensures
        r == tp_suggest_kinds(coordinate_flags(words@, numeric@)),
{
    let n = words.len();
    if n == 1 {
        (true, true)
    } else if n == 2 {
        if is_coordinate(words[0].as_str(), numeric[0]) { (false, true) } else { (true, true) }
    } else if n == 3 {
        if is_coordinate(words[0].as_str(), numeric[0]) {
            (false, true)
        } else if is_coordinate(words[1].as_str(), numeric[1]) {
            (false, true)
        } else {
            (false, false)
        }
    } else if n == 4 {
        if !is_coordinate(words[0].as_str(), numeric[0]) && is_coordinate(words[1].as_str(), numeric[1]) {
            (false, true)
        } else {
            (false, false)
        }
    } else {
        (false, false)
    }
}

/// A suggestion: the text and an optional tooltip.
pub struct Suggestion {
    pub content: String,
    pub tooltip: Option<String>,
}

/// A suggestion as character sequences.
pub open spec fn suggestion_view(s: Suggestion) -> (Seq<char>, Option<Seq<char>>) {
    (s.content@, match s.tooltip { Some(t) => Some(t@), None => None })
}

/// Coordinate completions for the word being typed: `~`, `~ ~`, `~ ~ ~`
/// while it is empty or `~`, else the word itself.
pub fn coordinate_suggestions(current_word: &str) -> (r: Vec<String>)
    ensures
        (current_word@.len() == 0 || current_word@ == "~"@) ==> r@.len() == 3 && r@[0]@ == "~"@ && r@[1]@
            == "~ ~"@ && r@[2]@ == "~ ~ ~"@,
        !(current_word@.len() == 0 || current_word@ == "~"@) ==> r@.len() == 1 && r@[0]@ == current_word@,
{
    let c = chars_of(current_word);
    let mut out: Vec<String> = Vec::new();
    if c.len() == 0 || eq_lit(c.as_slice(), "~") {
        out.push(String::from_str("~"));
        out.push(String::from_str("~ ~"));
        out.push(String::from_str("~ ~ ~"));
    } else {
        out.push(String::from_str(current_word));
    }
    out
}

/// `s` in lower case, as `str::to_lowercase` gives it.
pub uninterp spec fn lowercase(s: Seq<char>) -> Seq<char>;

/// `s` in upper case, as `str::to_uppercase` gives it.
pub uninterp spec fn uppercase(s: Seq<char>) -> Seq<char>;

/// `str::to_lowercase`.
#[verifier::external_body]
fn to_lowercase(s: &str) -> (r: String)
    ensures
        r@ == lowercase(s@),
{
    s.to_lowercase()
}

/// `str::to_uppercase`.
#[verifier::external_body]
fn to_uppercase(s: &str) -> (r: String)
    ensures
        r@ == uppercase(s@),
{
    s.to_uppercase()
}

/// Lower-case hexadecimal digit `n` (0 to 15).
pub open spec fn hex_lower(n: int) -> char {
    if n < 10 { (48 + n) as char } else { (87 + n) as char }
}

/// Hex digit `i` (0 to 31, most significant first) of `u`.
pub open spec fn nibble(u: u128, i: int) -> int {
    (u as int / pow(16, (31 - i) as nat)) % 16
}

/// Character `p` of the hyphenated form of `u`: hyphens at 8, 13, 18 and
/// 23, hex digits elsewhere.
pub open spec fn hyphenated_char(u: u128, p: int) -> char {
    if p == 8 || p == 13 || p == 18 || p == 23 {
        '-'
    } else {
        let before: int = if p < 8 { 0 } else if p < 13 { 1 } else if p < 18 { 2 } else if p < 23 { 3 } else { 4 };
        hex_lower(nibble(u, p - before))
    }
}

/// The hyphenated lower-case form of a UUID, `xxxxxxxx-xxxx-xxxx-xxxx-xxxxxxxxxxxx`.
pub open spec fn uuid_hyphenated(u: u128) -> Seq<char> {
    Seq::new(36, |p: int| hyphenated_char(u, p))
}

/// `Uuid::from_u128(u).as_hyphenated().to_string()`: the 32 hex digits of
/// `u`, most significant first, in lower case, with hyphens after the 8th,
/// 12th, 16th and 20th.
#[verifier::external_body]
pub(crate) fn uuid_string(u: u128) -> (r: String)
    ensures
        r@ == uuid_hyphenated(u),
{
    Uuid::from_u128(u).as_hyphenated().to_string()
}

/// The suggestion view of entity suggestion candidates that remain after
/// filtering by the lower-cased prefix `current`.
pub open spec fn prefix_filtered(
    all: Seq<(Seq<char>, Option<Seq<char>>)>,
    current: Seq<char>,
) -> Seq<(Seq<char>, Option<Seq<char>>)> {
    all.filter(prefix_pred(current))
}

/// Whether a suggestion's text starts with `current`, ignoring case.
pub open spec fn prefix_pred(current: Seq<char>) -> spec_fn((Seq<char>, Option<Seq<char>>)) -> bool {
    |s: (Seq<char>, Option<Seq<char>>)| seq_starts_with(lowercase(s.0), lowercase(current))
}

/// The entity candidates: the selectors `@e`, `@r`, `@a`, then each
/// online player by name with their UUID (upper case) as tooltip.
pub open spec fn entity_candidates(players: Seq<(u128, String)>) -> Seq<(Seq<char>, Option<Seq<char>>)> {
    seq![("@e"@, Some("Any Entity"@)), ("@r"@, Some("Random Player"@)), ("@a"@, Some("All Players"@))]
        + players.map_values(|p: (u128, String)| (p.1@, Some(uppercase(uuid_hyphenated(p.0)))))
}

/// A copy of `s`.
fn copy_suggestion(s: &Suggestion) -> (r: Suggestion)
    ensures
        suggestion_view(r) == suggestion_view(*s),
{
    let tooltip = match &s.tooltip {
        Some(t) => Some(t.clone()),
        None => None,
    };
    Suggestion { content: s.content.clone(), tooltip }
}

/// Entity suggestions for the word being typed: the selectors and the
/// online players whose text starts with the word, ignoring case.
pub fn entity_suggestions(current_word: &str, players: &Vec<(u128, String)>) -> (r: Vec<Suggestion>)
    ensures
        r@.map_values(|s: Suggestion| suggestion_view(s)) == prefix_filtered(entity_candidates(players@), current_word@),
{
    let mut all: Vec<Suggestion> = Vec::new();
    all.push(Suggestion { content: String::from_str("@e"), tooltip: Some(String::from_str("Any Entity")) });
    all.push(Suggestion { content: String::from_str("@r"), tooltip: Some(String::from_str("Random Player")) });
    all.push(Suggestion { content: String::from_str("@a"), tooltip: Some(String::from_str("All Players")) });
    let mut i: usize = 0;
    while i < players.len()
        invariant
            i <= players@.len(),
            all@.map_values(|s: Suggestion| suggestion_view(s)) == entity_candidates(players@.take(i as int)),
        decreases players@.len() - i,
    {
        let (uuid, name) = &players[i];
        let id = uuid_string(*uuid);
        let tooltip = to_uppercase(id.as_str());
        let ghost before = all@.map_values(|s: Suggestion| suggestion_view(s));
        let ghost f = |p: (u128, String)| (p.1@, Some(uppercase(uuid_hyphenated(p.0))));
        all.push(Suggestion { content: name.clone(), tooltip: Some(tooltip) });
        proof {
            assert(players@.take(i + 1).map_values(f) =~= players@.take(i as int).map_values(f).push(f(players@[i as int])));
            assert(all@.map_values(|s: Suggestion| suggestion_view(s)) =~= before.push(f(players@[i as int])));
            assert(all@.map_values(|s: Suggestion| suggestion_view(s)) =~= entity_candidates(players@.take(i + 1)));
        }
        i = i + 1;
    }
    proof {
        assert(players@.take(players@.len() as int) =~= players@);
    }
    let current = to_lowercase(current_word);
    let cur = chars_of(current.as_str());
    let ghost cands = all@.map_values(|s: Suggestion| suggestion_view(s));
    let ghost pred = prefix_pred(current_word@);
    let mut out: Vec<Suggestion> = Vec::new();
    let mut k: usize = 0;
    while k < all.len()
        invariant
            k <= all@.len(),
            all@.map_values(|s: Suggestion| suggestion_view(s)) == cands,
            out@.map_values(|s: Suggestion| suggestion_view(s)) == cands.take(k as int).filter(pred),
            cur@ == lowercase(current_word@),
            pred == prefix_pred(current_word@),
        decreases all@.len() - k,
    {
        let s = &all[k];
        let lc = to_lowercase(s.content.as_str());
        let lcc = chars_of(lc.as_str());
        let keep = starts_with(lcc.as_slice(), cur.as_slice());
        let ghost before = out@.map_values(|s: Suggestion| suggestion_view(s));
        proof {
            assert(cands[k as int] == suggestion_view(all@[k as int]));
            reveal_with_fuel(Seq::<_>::filter, 1);
            assert(cands.take(k + 1).drop_last() =~= cands.take(k as int));
            assert(cands.take(k + 1).last() == cands[k as int]);
            assert(cands[k as int].0 == s.content@);
            assert(lcc@ == lowercase(s.content@));
            assert(keep == seq_starts_with(lowercase(s.content@), lowercase(current_word@)));
            assert(pred(cands[k as int]) == seq_starts_with(lowercase(cands[k as int].0), lowercase(current_word@)));
            assert(keep == pred(cands[k as int]));
        }
        if keep {
            let c = copy_suggestion(s);
            out.push(c);
            proof {
                reveal_with_fuel(Seq::<_>::filter, 1);
                assert(cands.take(k + 1).filter(pred) == cands.take(k as int).filter(pred).push(cands[k as int]));
                assert(out@.map_values(|s: Suggestion| suggestion_view(s)) =~= before.push(cands[k as int]));
            }
        } else {
            proof {
                reveal_with_fuel(Seq::<_>::filter, 1);
                assert(cands.take(k + 1).filter(pred) == cands.take(k as int).filter(pred));
            }
        }
        k = k + 1;
    }
    proof {
        assert(cands.take(k as int) =~= cands);
    }
    out
}


/// The word being typed: the last of `words`, or nothing.
pub open spec fn current_word(words: Seq<String>) -> Seq<char> {
    if words.len() == 0 { Seq::empty() } else { words[words.len() - 1]@ }
}

/// Completions for `/tp`'s argument: `words` is the input split at spaces
/// (`numeric[i]`: whether `words[i]` parses as a number), `players` the
/// online players (UUID and name). Coordinate completions come first, then
/// matching entity selectors and players.
pub fn tp_suggestions(words: &Vec<String>, numeric: &Vec<bool>, players: &Vec<(u128, String)>) -> (r: Vec<Suggestion>)
    requires
        numeric.len() == words.len(),
    ensures
        ({
            let kinds = tp_suggest_kinds(coordinate_flags(words@, numeric@));
            let cw = current_word(words@);
            let coords: Seq<(Seq<char>, Option<Seq<char>>)> = if !kinds.1 {
                Seq::empty()
            } else if cw.len() == 0 || cw == "~"@ {
                seq![("~"@, None), ("~ ~"@, None), ("~ ~ ~"@, None)]
            } else {
                seq![(cw, None)]
            };
            let ents = if kinds.0 { prefix_filtered(entity_candidates(players@), cw) } else { Seq::empty() };
            r@.map_values(|s: Suggestion| suggestion_view(s)) == coords + ents
        }),
{
    let (suggest_entities, suggest_coords) = tp_suggestion_kinds(words, numeric);
    let current: &str = if words.len() == 0 { "" } else { words[words.len() - 1].as_str() };
    proof {
        reveal_strlit("");
    }
    let mut suggestions: Vec<Suggestion> = Vec::new();
    if suggest_coords {
        let cs = coordinate_suggestions(current);
        let mut i: usize = 0;
        while i < cs.len()
            invariant
                i <= cs@.len(),
                suggestions@.map_values(|s: Suggestion| suggestion_view(s))
                    == cs@.take(i as int).map_values(|c: String| (c@, None::<Seq<char>>)),
            decreases cs@.len() - i,
        {
            let ghost before = suggestions@.map_values(|s: Suggestion| suggestion_view(s));
            suggestions.push(Suggestion { content: cs[i].clone(), tooltip: None });
            proof {
                assert(cs@.take(i + 1).map_values(|c: String| (c@, None::<Seq<char>>))
                    =~= cs@.take(i as int).map_values(|c: String| (c@, None::<Seq<char>>)).push((cs@[i as int]@, None)));
                assert(suggestions@.map_values(|s: Suggestion| suggestion_view(s)) =~= before.push((cs@[i as int]@, None)));
            }
            i = i + 1;
        }
        proof {
            assert(cs@.take(cs@.len() as int) =~= cs@);
            let v = suggestions@.map_values(|s: Suggestion| suggestion_view(s));
            if current@.len() == 0 || current@ == "~"@ {
                assert(v =~= seq![("~"@, None), ("~ ~"@, None), ("~ ~ ~"@, None)]);
            } else {
                assert(v =~= seq![(current@, None)]);
            }
        }
    }
    if suggest_entities {
        let ents = entity_suggestions(current, players);
        let ghost before = suggestions@.map_values(|s: Suggestion| suggestion_view(s));
        let mut i: usize = 0;
        while i < ents.len()
            invariant
                i <= ents@.len(),
                suggestions@.map_values(|s: Suggestion| suggestion_view(s))
                    == before + ents@.take(i as int).map_values(|s: Suggestion| suggestion_view(s)),
            decreases ents@.len() - i,
        {
            let ghost b = suggestions@.map_values(|s: Suggestion| suggestion_view(s));
            let c = copy_suggestion(&ents[i]);
            suggestions.push(c);
            proof {
                assert(ents@.take(i + 1).map_values(|s: Suggestion| suggestion_view(s))
                    =~= ents@.take(i as int).map_values(|s: Suggestion| suggestion_view(s)).push(suggestion_view(ents@[i as int])));
                assert(suggestions@.map_values(|s: Suggestion| suggestion_view(s)) =~= b.push(suggestion_view(ents@[i as int])));
            }
            i = i + 1;
        }
        proof {
            assert(ents@.take(ents@.len() as int) =~= ents@);
        }
    }
    proof {
        let v = suggestions@.map_values(|s: Suggestion| suggestion_view(s));
        assert(current@ == current_word(words@));
        if !suggest_coords && !suggest_entities {
            assert(v =~= Seq::<(Seq<char>, Option<Seq<char>>)>::empty());
        }
        if !suggest_coords && suggest_entities {
            assert(v =~= Seq::<(Seq<char>, Option<Seq<char>>)>::empty() + v);
        }
        if suggest_coords && !suggest_entities {
            assert(v =~= v + Seq::<(Seq<char>, Option<Seq<char>>)>::empty());
        }
    }
    suggestions
}

/// Who `/tp` moves: the single entity the `from` selector resolved to, or
/// the player running the command. Errors: a `from` selector matching other
/// than exactly one entity, or the server running it without `from`.
pub fn tp_source(from: Option<&Vec<u64>>, sender_player: Option<u64>) -> (r: Result<u64, &'static str>)
    ensures
        from matches Some(v) ==> (v@.len() == 1 ==> r == Ok::<u64, &'static str>(v@[0]))
            && (v@.len() != 1 ==> (r matches Err(m) && m@ == "You must specify exactly one target to teleport."@)),
        from is None ==> (sender_player matches Some(e) ==> r == Ok::<u64, &'static str>(e))
            && (sender_player is None ==> (r matches Err(m) && m@ == "You must specify a target when running this command from the server."@)),
{
    match from {
        Some(resolved) => {
            if resolved.len() != 1 {
                return Err("You must specify exactly one target to teleport.");
            }
            Ok(resolved[0])
        },
        None => match sender_player {
            Some(e) => Ok(e),
            None => Err("You must specify a target when running this command from the server."),
        },
    }
}

/// Where `/tp <entity>` sends `target`: the single entity the destination
/// selector resolved to. Errors: a selector that can match several entities
/// (`@e`, `@a`), a resolution to other than exactly one entity, or the
/// target itself.
pub fn tp_destination(target: u64, selector_matches_many: bool, resolved: &Vec<u64>) -> (r: Result<u64, &'static str>)
    ensures
        selector_matches_many ==> (r matches Err(m)
            && m@ == "Only one entity is allowed, but the provided selector can match multiple entities."@),
        !selector_matches_many && resolved@.len() != 1 ==> (r matches Err(m)
            && m@ == "You must specify exactly one destination entity."@),
        !selector_matches_many && resolved@.len() == 1 && resolved@[0] == target ==> (r matches Err(m)
            && m@ == "Cannot teleport an entity to itself."@),
        !selector_matches_many && resolved@.len() == 1 && resolved@[0] != target ==> r == Ok::<u64, &'static str>(resolved@[0]),
{
    if selector_matches_many {
        return Err("Only one entity is allowed, but the provided selector can match multiple entities.");
    }
    if resolved.len() != 1 {
        return Err("You must specify exactly one destination entity.");
    }
    let dest = resolved[0];
    if target == dest {
        return Err("Cannot teleport an entity to itself.");
    }
    Ok(dest)
}

// ------------------------------------------------------ other commands

/// Who `/kill` kills: the running player for the self form (the server
/// cannot target itself), else the resolved entities.
pub fn kill_targets(self_target: bool, sender_player: Option<u64>, resolved: Vec<u64>) -> (r: Result<Vec<u64>, &'static str>)
    ensures
        self_target && sender_player is Some ==> (r matches Ok(v) && v@ == seq![sender_player->0]),
        self_target && sender_player is None ==> (r matches Err(m) && m@ == "The server cannot target itself with this command."@),
        !self_target ==> (r matches Ok(v) && v@ == resolved@),
{
    if self_target {
        match sender_player {
            Some(e) => Ok(vec![e]),
            None => Err("The server cannot target itself with this command."),
        }
    } else {
        Ok(resolved)
    }
}

/// `/kill`'s reply: `Killed N entities (excluding players).`
pub fn kill_message(count: u64) -> (r: String)
    ensures
        r@ == "Killed "@ + decimal(count as nat) + " entities (excluding players)."@,
{
    let mut s = String::from_str("Killed ");
    push_decimal(&mut s, count);
    s.append(" entities (excluding players).");
    s
}

/// `/damage`'s targets: refused when none matched.
pub fn damage_targets(resolved: &Vec<u64>) -> (r: Result<(), &'static str>)
    ensures
        resolved@.len() == 0 ==> (r matches Err(m) && m@ == "No entities matched the target."@),
        resolved@.len() > 0 ==> r is Ok,
{
    if resolved.len() == 0 {
        return Err("No entities matched the target.");
    }
    Ok(())
}

/// `/damage`'s reply: `Damaged N entities for A.`
pub fn damage_message(count: u64, amount: u64) -> (r: String)
    ensures
        r@ == "Damaged "@ + decimal(count as nat) + " entities for "@ + decimal(amount as nat) + "."@,
{
    let mut s = String::from_str("Damaged ");
    push_decimal(&mut s, count);
    s.append(" entities for ");
    push_decimal(&mut s, amount);
    s.append(".");
    s
}

/// `s` joined with `", "` between the parts.
pub open spec fn joined(parts: Seq<Seq<char>>) -> Seq<char>
    decreases parts.len(),
{
    if parts.len() == 0 {
        Seq::empty()
    } else if parts.len() == 1 {
        parts[0]
    } else {
        joined(parts.drop_last()) + ", "@ + parts.last()
    }
}

/// How `/list` names a player: the name, or `name (uuid)` for `/list uuid`.
pub open spec fn list_entry(name: Seq<char>, uuid: u128, with_uuid: bool) -> Seq<char> {
    if with_uuid { name + " ("@ + uuid_hyphenated(uuid) + ")"@ } else { name }
}

/// `/list`'s reply for the online players (UUID, name if known):
/// `There are N of a max of M players online: a, b, c`; refused when a
/// player has no name.
pub fn list_message(players: &Vec<(u128, Option<String>)>, max_players: u32, with_uuid: bool) -> (r: Result<String, &'static str>)
    ensures
        (exists|i: int| 0 <= i < players@.len() && (#[trigger] players@[i]).1 is None) ==> (r matches Err(m)
            && m@ == "player entity does not have a name"@),
        (forall|i: int| 0 <= i < players@.len() ==> (#[trigger] players@[i]).1 is Some) ==> (r matches Ok(s) && s@
            == "There are "@ + decimal(players@.len()) + " of a max of "@ + decimal(max_players as nat)
            + " players online: "@ + joined(players@.map_values(|p: (u128, Option<String>)| list_entry((p.1->0)@, p.0, with_uuid)))),
{
    let ghost entries = players@.map_values(|p: (u128, Option<String>)| list_entry((p.1->0)@, p.0, with_uuid));
    let mut names = String::new();
    let mut i: usize = 0;
    while i < players.len()
        invariant
            i <= players@.len(),
            forall|j: int| 0 <= j < i ==> (#[trigger] players@[j]).1 is Some,
            entries == players@.map_values(|p: (u128, Option<String>)| list_entry((p.1->0)@, p.0, with_uuid)),
            names@ == joined(entries.take(i as int)),
        decreases players@.len() - i,
    {
        let (uuid, name) = &players[i];
        let name = match name {
            Some(n) => n,
            None => return Err("player entity does not have a name"),
        };
        let ghost before = names@;
        if i > 0 {
            names.append(", ");
        }
        names.append(name.as_str());
        if with_uuid {
            names.append(" (");
            let id = uuid_string(*uuid);
            names.append(id.as_str());
            names.append(")");
        }
        proof {
            assert(entries.take(i + 1).drop_last() =~= entries.take(i as int));
            assert(entries.take(i + 1).last() == entries[i as int]);
            if i == 0 {
                assert(entries.take(1) =~= seq![entries[0]]);
            }
            assert(names@ =~= joined(entries.take(i + 1)));
        }
        i = i + 1;
    }
    proof {
        assert(entries.take(players@.len() as int) =~= entries);
    }
    let mut s = String::from_str("There are ");
    push_decimal(&mut s, players.len() as u64);
    s.append(" of a max of ");
    push_decimal(&mut s, max_players as u64);
    s.append(" players online: ");
    s.append(names.as_str());
    Ok(s)
}

/// What `/op` does for one resolved player.
#[derive(Clone, Debug)]
pub enum OpStep {
    /// Already an operator: nothing changes; the sender is told so.
    AlreadyOperator,
    /// Made an operator; the sender gets the announcement and the player
    /// `You have been opped`.
    Granted(String),
    /// Made an operator, but the player has no name: the command fails.
    GrantedUnnamed,
}

/// `/op` for one player who is (`already_op`) or is not yet an operator
/// and has name `name`.
pub fn op_step(already_op: bool, name: Option<&str>) -> (r: OpStep)
    ensures
        already_op ==> r is AlreadyOperator,
        !already_op && name is None ==> r is GrantedUnnamed,
        !already_op && name is Some ==> (r matches OpStep::Granted(m) && m@ == "Made "@ + (name->0)@ + " a server operator"@),
{
    if already_op {
        return OpStep::AlreadyOperator;
    }
    match name {
        Some(n) => {
            let mut s = String::from_str("Made ");
            s.append(n);
            s.append(" a server operator");
            OpStep::Granted(s)
        },
        None => OpStep::GrantedUnnamed,
    }
}

/// Name a command's sender goes by: the player's name, or `Server`.
pub open spec fn sender_name(name: Option<Seq<char>>) -> Seq<char> {
    match name {
        Some(n) => n,
        None => "Server"@,
    }
}

/// `/say`'s broadcast: `<name> message`, with `Server` for the server.
pub fn say_message(sender: Option<&str>, message: &str) -> (r: String)
    ensures
        r@ == "<"@ + sender_name(match sender { Some(s) => Some(s@), None => None }) + "> "@ + message@,
{
    let name = match sender {
        Some(s) => s,
        None => "Server",
    };
    crate::messages::chat_line(name, message)
}

/// `/echo`'s reply text before the echoed message: `name said: `.
pub fn echo_prefix(sender: Option<&str>) -> (r: String)
    ensures
        r@ == sender_name(match sender { Some(s) => Some(s@), None => None }) + " said: "@,
{
    let name = match sender {
        Some(s) => s,
        None => "Server",
    };
    join_strs(name, " said: ")
}

/// `/nested`'s (or, when `twice`, `/nested nested`'s) reply:
/// `name executed /nested`.
pub fn nested_message(sender: Option<&str>, twice: bool) -> (r: String)
    ensures
        r@ == sender_name(match sender { Some(s) => Some(s@), None => None })
            + (if twice { " executed /nested nested"@ } else { " executed /nested"@ }),
{
    let name = match sender {
        Some(s) => s,
        None => "Server",
    };
    if twice { join_strs(name, " executed /nested nested") } else { join_strs(name, " executed /nested") }
}

/// Whose gamemode `/gamemode` changes: the running player; the server
/// cannot change gamemode.
pub fn gamemode_target(sender_player: Option<u64>) -> (r: Result<u64, &'static str>)
    ensures
        sender_player matches Some(e) ==> r == Ok::<u64, &'static str>(e),
        sender_player is None ==> (r matches Err(m) && m@ == "Error: The server can't change gamemode."@),
{
    match sender_player {
        Some(e) => Ok(e),
        None => Err("Error: The server can't change gamemode."),
    }
}

/// Whether `/stop` may run: only the server may stop the server.
pub fn stop_allowed(sender_is_server: bool) -> (r: Result<(), &'static str>)
    ensures
        sender_is_server ==> r is Ok,
        !sender_is_server ==> (r matches Err(m) && m@ == "This command can only be used by the server."@),
{
    if !sender_is_server {
        return Err("This command can only be used by the server.");
    }
    Ok(())
}

} // verus!
