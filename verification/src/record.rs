//! The decoded filesystem-change event and the predicates that gate which
//! events reach the sinks.
use vstd::prelude::*;

verus! {

use crate::flags;

/// Mathematical model of a decoded record.
pub ghost struct RecordV {
    pub path: Seq<char>,
    pub event_id: u64,
    pub flag: u32,
    pub flags: Seq<char>,
    pub alt_flags: Seq<char>,
    pub node_id: Option<u64>,
    pub extra_id: Option<u32>,
}

/// One decoded filesystem event.
#[derive(Debug)]
pub struct Record {
    /// Filesystem path, lossily decoded from the on-disk bytes, no trailing NUL.
    pub path: String,
    /// Monotonically-issued sequence id, big-endian on disk.
    pub event_id: u64,
    /// Raw bitmask, big-endian on disk, never mutated after decode.
    pub flag: u32,
    /// Rendering of `flag` against the primary vocabulary.
    pub flags: String,
    /// Rendering of `flag` against the alternate vocabulary.
    pub alt_flags: String,
    /// Present exactly for format versions with a node id.
    pub node_id: Option<u64>,
    /// Present exactly for the format version with the trailing extra word;
    /// kept for visibility, never interpreted.
    pub extra_id: Option<u32>,
}

impl View for Record {
    type V = RecordV;

    open spec fn view(&self) -> RecordV {
        RecordV {
            path: self.path@,
            event_id: self.event_id,
            flag: self.flag,
            flags: self.flags@,
            alt_flags: self.alt_flags@,
            node_id: self.node_id,
            extra_id: self.extra_id,
        }
    }
}

impl Clone for Record {
    fn clone(&self) -> (r: Self)
        ensures
            r@ == self@,
    {
        let r = Record {
            path: self.path.clone(),
            event_id: self.event_id,
            flag: self.flag,
            flags: self.flags.clone(),
            alt_flags: self.alt_flags.clone(),
            node_id: self.node_id,
            extra_id: self.extra_id,
        };
        assert(r@ == self@);
        r
    }
}

/// A predicate over decoded records, evaluated before a record is allowed
/// onto the distribution channel.
pub trait RecordFilter {
    /// What the predicate means on the record's model.
    spec fn spec_filter(&self, rec: RecordV) -> bool;

    /// Decide the predicate on one record.
    fn filter(&self, rec: &Record) -> (r: bool)
        ensures
            r == self.spec_filter(rec@),
    ;
}

/// The filter that accepts every record.
#[derive(Clone, Copy)]
pub struct NoRecordFilter;

impl RecordFilter for NoRecordFilter {
    open spec fn spec_filter(&self, rec: RecordV) -> bool {
        true
    }

    fn filter(&self, rec: &Record) -> (r: bool) {
        true
    }
}

/// A filter or filter configuration that could not be built.
#[derive(Clone, Copy, Debug, PartialEq, Eq, Structural)]
pub enum FilterError {
    /// The path pattern is not a valid regular expression.
    BadPattern,
    /// A flag name does not occur in the primary flag table.
    UnknownFlag,
}

/// Whether `pattern` is a valid regular expression.
pub uninterp spec fn regex_valid(pattern: Seq<char>) -> bool;

/// Whether the regular expression compiled from `pattern` matches `text`.
pub uninterp spec fn regex_match_of(pattern: Seq<char>, text: Seq<char>) -> bool;

#[verifier::external_type_specification]
#[verifier::external_body]
pub struct ExRegex(regex::bytes::Regex);

/// Relies on regex::bytes::Regex::new: whether a pattern compiles is a
/// function of the pattern text alone.
#[verifier::external_body]
fn regex_compile(pattern: &str) -> (r: Option<regex::bytes::Regex>)
    ensures
        r is Some <==> regex_valid(pattern@),
{
    regex::bytes::Regex::new(pattern).ok()
}

/// A filter that accepts the records whose path matches a regular
/// expression.
pub struct PathFilter {
    path_rex: regex::bytes::Regex,
    pattern: String,
}

impl PathFilter {
    /// The pattern this filter was compiled from.
    pub closed spec fn spec_pattern(&self) -> Seq<char> {
        self.pattern@
    }

    /// Compile a path filter; fails exactly when the pattern is not a valid
    /// regular expression.
    pub fn new(pattern: String) -> (r: Result<PathFilter, FilterError>)
        ensures
            r is Ok <==> regex_valid(pattern@),
            r matches Err(e) ==> e == FilterError::BadPattern,
            r matches Ok(f) ==> f.spec_pattern() == pattern@,
    {
        match regex_compile(pattern.as_str()) {
            Some(path_rex) => Ok(PathFilter { path_rex, pattern }),
            None => Err(FilterError::BadPattern),
        }
    }
}

/// Relies on regex::bytes::Regex::is_match, applied to the UTF-8 bytes of
/// `path`: the result is a function of the compiled pattern and the haystack
/// alone.  `f.path_rex` is always the compiled form of `f.pattern` (see
/// `PathFilter::new`, the only constructor).
#[verifier::external_body]
fn path_filter_matches(f: &PathFilter, path: &str) -> (r: bool)
    ensures
        r == regex_match_of(f.spec_pattern(), path@),
{
    f.path_rex.is_match(path.as_bytes())
}

impl RecordFilter for PathFilter {
    open spec fn spec_filter(&self, rec: RecordV) -> bool {
        regex_match_of(self.spec_pattern(), rec.path)
    }

    fn filter(&self, rec: &Record) -> (r: bool) {
        path_filter_matches(self, self::path_as_str(rec))
    }
}

/// The record's path as a string slice.
fn path_as_str(rec: &Record) -> (r: &str)
    ensures
        r@ == rec@.path,
{
    rec.path.as_str()
}

/// The OR of the primary-table bits declared for each listed name; `None`
/// when some name is not declared.
pub open spec fn spec_or_masks(names: Seq<Seq<char>>) -> Option<u32>
    decreases names.len(),
{
    if names.len() == 0 {
        Some(0)
    } else {
        match spec_or_masks(names.drop_last()) {
            None => None,
            Some(m) => match flags::spec_flag_bit(names.last()) {
                None => None,
                Some(b) => Some(m | b),
            },
        }
    }
}

/// The views of a list of owned strings.
pub open spec fn names_view(names: Seq<String>) -> Seq<Seq<char>> {
    names.map_values(|s: String| s@)
}

/// Resolve each listed flag name to its bit and OR them together.
fn or_masks(names: &Vec<String>) -> (r: Option<u32>)
    ensures
        r == spec_or_masks(names_view(names@)),
{
    let mut mask: u32 = 0;
    let mut i: usize = 0;
    while i < names.len()
        invariant
            i <= names.len(),
            spec_or_masks(names_view(names@.take(i as int))) == Some(mask),
        decreases names.len() - i,
    {
        let bit = match flags::flag_bit_of_name(names[i].as_str()) {
            None => {
                proof {
                    lemma_or_masks_none(names@, i as int);
                }
                return None;
            },
            Some(b) => b,
        };
        proof {
            assert(names_view(names@.take(i as int + 1)).drop_last() =~= names_view(
                names@.take(i as int),
            ));
            assert(names_view(names@.take(i as int + 1)).last() == names@[i as int]@);
        }
        mask = mask | bit;
        i += 1;
    }
    proof {
        assert(names@.take(names@.len() as int) =~= names@);
    }
    Some(mask)
}

proof fn lemma_or_masks_none(names: Seq<String>, i: int)
    requires
        0 <= i < names.len(),
        flags::spec_flag_bit(names[i]@) is None,
    ensures
        spec_or_masks(names_view(names)) is None,
    decreases names.len(),
{
    if names.len() > 0 {
        if i == names.len() - 1 {
            assert(names_view(names).last() == names[i]@);
        } else {
            lemma_or_masks_none(names.drop_last(), i);
            assert(names_view(names).drop_last() =~= names_view(names.drop_last()));
        }
    }
}

/// The combined record predicate: any-of and all-of flag masks, and an
/// optional path pattern.  Flag names are resolved to bit positions at
/// construction time; immutable and side-effect free afterwards.
pub struct EventFilter {
    /// Accept only records carrying at least one of these bits (0: no such test).
    pub any_mask: u32,
    /// Accept only records carrying all of these bits (0: no such test).
    pub all_mask: u32,
    /// Accept only records whose path matches this pattern.
    pub path: Option<PathFilter>,
}

impl EventFilter {
    /// Build the filter; unknown flag names and bad patterns fail here, fast,
    /// before any decoding starts.
    pub fn new(path_pattern: Option<String>, any_flags: &Vec<String>, all_flags: &Vec<String>) -> (r:
        Result<EventFilter, FilterError>)
        ensures
            r is Ok <==> (spec_or_masks(names_view(any_flags@)) is Some && spec_or_masks(
                names_view(all_flags@),
            ) is Some && (path_pattern matches Some(p) ==> regex_valid(p@))),
            r == Err::<EventFilter, FilterError>(FilterError::UnknownFlag) <==> (spec_or_masks(
                names_view(any_flags@),
            ) is None || spec_or_masks(names_view(all_flags@)) is None),
            r matches Ok(f) ==> {
                &&& Some(f.any_mask) == spec_or_masks(names_view(any_flags@))
                &&& Some(f.all_mask) == spec_or_masks(names_view(all_flags@))
                &&& (f.path is Some <==> path_pattern is Some)
                &&& (path_pattern matches Some(p) ==> f.path matches Some(pf) && pf.spec_pattern()
                    == p@)
            },
    {
        let any_mask = match or_masks(any_flags) {
            None => {
                return Err(FilterError::UnknownFlag);
            },
            Some(m) => m,
        };
        let all_mask = match or_masks(all_flags) {
            None => {
                return Err(FilterError::UnknownFlag);
            },
            Some(m) => m,
        };
        let path = match path_pattern {
            None => None,
            Some(p) => match PathFilter::new(p) {
                Ok(pf) => Some(pf),
                Err(e) => {
                    return Err(e);
                },
            },
        };
        Ok(EventFilter { any_mask, all_mask, path })
    }

    /// What acceptance means: each configured test must pass.
    pub open spec fn spec_accepts(&self, rec: RecordV) -> bool {
        &&& (self.any_mask == 0 || self.any_mask & rec.flag != 0)
        &&& (self.all_mask == 0 || rec.flag & self.all_mask == self.all_mask)
        &&& (match self.path {
            None => true,
            Some(pf) => regex_match_of(pf.spec_pattern(), rec.path),
        })
    }

    /// Decide whether `rec` is let through to the distribution channel.
    pub fn accepts(&self, rec: &Record) -> (r: bool)
        ensures
            r == self.spec_accepts(rec@),
    {
        let masks_ok = (self.any_mask == 0 || self.any_mask & rec.flag != 0) && (self.all_mask == 0
            || rec.flag & self.all_mask == self.all_mask);
        if !masks_ok {
            return false;
        }
        match &self.path {
            None => true,
            Some(pf) => path_filter_matches(pf, path_as_str(rec)),
        }
    }
}

impl RecordFilter for EventFilter {
    open spec fn spec_filter(&self, rec: RecordV) -> bool {
        self.spec_accepts(rec)
    }

    fn filter(&self, rec: &Record) -> (r: bool) {
        self.accepts(rec)
    }
}

} // verus!
