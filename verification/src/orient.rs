//! The `orient` command, the structural code search that finds the entities
//! most relevant to a query: its options, what it answers for a query, and
//! the lines it prints for each entity found.  The search itself, and the
//! terminal colours, are the caller's.
use vstd::prelude::*;
use crate::text::{decimal, push_char, push_decimal, push_text};

verus! {

/// Options of the `orient` command.
pub struct OrientOptions {
    pub cwd: String,
    pub query: String,
    pub limit: usize,
    pub json: bool,
    pub file_exts: Vec<String>,
    pub no_cache: bool,
    pub no_default_excludes: bool,
}

/// The exit status of the command when the query has no searchable terms.
pub const NO_TERMS_EXIT_STATUS: i32 = 2;

/// The width to which the entity type is padded in a listing.
pub const TYPE_COLUMN_WIDTH: usize = 9;

/// One entity found relevant to the query, as the command reports it
/// (its ranking score aside).
pub struct OrientHit {
    pub name: String,
    pub entity_type: String,
    pub file_path: String,
    pub start_line: usize,
    pub signature: String,
    pub dependencies: usize,
    pub dependents: usize,
}

/// What the command answers.
#[derive(Clone, Copy, Debug, PartialEq, Eq, Structural)]
pub enum OrientOutcome {
    /// The query has no searchable terms: an error, and exit status 2,
    /// before any search.
    NoSearchableTerms,
    /// The entities found, as JSON rows.
    Json,
    /// A note that no entity matched.
    NoMatches,
    /// A header, then the lines of each entity found.
    Listing,
}

/// What the command answers for a query with or without searchable terms,
/// in JSON or not, when the search found `hit_count` entities.
pub open spec fn orient_outcome_spec(has_terms: bool, json: bool, hit_count: nat) -> OrientOutcome {
    if !has_terms {
        OrientOutcome::NoSearchableTerms
    } else if json {
        OrientOutcome::Json
    } else if hit_count == 0 {
        OrientOutcome::NoMatches
    } else {
        OrientOutcome::Listing
    }
}

/// What the command answers (see `orient_outcome_spec`).
pub fn orient_outcome(has_terms: bool, json: bool, hit_count: usize) -> (r: OrientOutcome)
    ensures
        r == orient_outcome_spec(has_terms, json, hit_count as nat),
{
    if !has_terms {
        OrientOutcome::NoSearchableTerms
    } else if json {
        OrientOutcome::Json
    } else if hit_count == 0 {
        OrientOutcome::NoMatches
    } else {
        OrientOutcome::Listing
    }
}

/// What the command answers before any search: a query without searchable
/// terms is refused (with exit status `NO_TERMS_EXIT_STATUS`) before the
/// graph is built; any other query goes on to the search.  The refusal is
/// the one answer that does not depend on what the search finds.
pub fn orient_precheck(has_terms: bool) -> (r: Option<OrientOutcome>)
    ensures
        r == (if has_terms {
            None::<OrientOutcome>
        } else {
            Some(OrientOutcome::NoSearchableTerms)
        }),
        r matches Some(o) ==> forall|json: bool, n: nat| orient_outcome_spec(has_terms, json, n) == o,
        r is None ==> forall|json: bool, n: nat|
            orient_outcome_spec(has_terms, json, n) != OrientOutcome::NoSearchableTerms,
{
    if has_terms {
        None
    } else {
        Some(OrientOutcome::NoSearchableTerms)
    }
}

/// What the command answers, by its inputs: a query without searchable
/// terms is refused whatever else holds; JSON output asked for gives JSON
/// rows whatever the number of hits (none included); otherwise the note
/// that nothing matched comes exactly when there are no hits, and the
/// listing exactly when there are some.
pub proof fn law_orient_answers(has_terms: bool, json: bool, hit_count: nat)
    ensures
        !has_terms ==> orient_outcome_spec(has_terms, json, hit_count) == OrientOutcome::NoSearchableTerms,
        has_terms && json ==> orient_outcome_spec(has_terms, json, hit_count) == OrientOutcome::Json,
        has_terms && !json ==> (orient_outcome_spec(has_terms, json, hit_count) == OrientOutcome::NoMatches
            <==> hit_count == 0),
        has_terms && !json ==> (orient_outcome_spec(has_terms, json, hit_count) == OrientOutcome::Listing
            <==> hit_count > 0),
        orient_outcome_spec(has_terms, json, hit_count) == OrientOutcome::Json ==> has_terms && json,
{
}

/// `n` spaces.
pub open spec fn spaces(n: nat) -> Seq<char> {
    Seq::new(n, |i: int| ' ')
}

/// `s` padded with spaces on the right to `width` characters; as it is
/// where it is that long already.
pub open spec fn pad_right(s: Seq<char>, width: nat) -> Seq<char> {
    if s.len() >= width {
        s
    } else {
        s + spaces((width - s.len()) as nat)
    }
}

/// The parts of the listing of one entity found.
pub struct HitLines {
    /// The entity type, padded to the type column.
    pub entity_type: String,
    pub name: String,
    /// `file:line`.
    pub location: String,
    /// The signature, on a line of its own where there is one.
    pub signature: Option<String>,
    /// `N dependents`, on a line of its own where there are any.
    pub dependents: Option<String>,
}

/// Appends `n` spaces to `out`.
fn push_spaces(out: &mut String, n: usize)
    ensures
        final(out)@ == old(out)@ + spaces(n as nat),
{
    let mut i: usize = 0;
    while i < n
        invariant
            i <= n,
            out@ == old(out)@ + spaces(i as nat),
        decreases n - i,
    {
        push_char(out, ' ');
        assert(spaces((i + 1) as nat) =~= spaces(i as nat).push(' '));
        i = i + 1;
    }
}

/// The listing of one entity found: its type padded to the type column,
/// its name, `file:line`, its signature unless it is empty, and the number
/// of its dependents unless there are none.
pub fn hit_lines(h: &OrientHit) -> (r: HitLines)
    ensures
        r.entity_type@ == pad_right(h.entity_type@, TYPE_COLUMN_WIDTH as nat),
        r.name@ == h.name@,
        r.location@ == h.file_path@ + ":"@ + decimal(h.start_line as nat),
        h.signature@.len() == 0 ==> r.signature is None,
        h.signature@.len() > 0 ==> (r.signature matches Some(s) && s@ == h.signature@),
        h.dependents == 0 ==> r.dependents is None,
        h.dependents > 0 ==> (r.dependents matches Some(s) && s@ == decimal(h.dependents as nat)
            + " dependents"@),
{
    let mut entity_type = String::new();
    push_text(&mut entity_type, h.entity_type.as_str());
    let len = crate::text::chars_of(h.entity_type.as_str()).len();
    if len < TYPE_COLUMN_WIDTH {
        push_spaces(&mut entity_type, TYPE_COLUMN_WIDTH - len);
    } else {
        assert(entity_type@ =~= h.entity_type@);
    }
    let mut name = String::new();
    push_text(&mut name, h.name.as_str());
    assert(name@ =~= h.name@);
    let mut location = String::new();
    push_text(&mut location, h.file_path.as_str());
    push_text(&mut location, ":");
    push_decimal(&mut location, h.start_line);
    let signature = if h.signature.as_str().is_empty() {
        None
    } else {
        let mut s = String::new();
        push_text(&mut s, h.signature.as_str());
        assert(s@ =~= h.signature@);
        Some(s)
    };
    let dependents = if h.dependents == 0 {
        None
    } else {
        let mut s = String::new();
        push_decimal(&mut s, h.dependents);
        push_text(&mut s, " dependents");
        assert(s@ =~= decimal(h.dependents as nat) + " dependents"@);
        Some(s)
    };
    HitLines { entity_type, name, location, signature, dependents }
}

} // verus!
