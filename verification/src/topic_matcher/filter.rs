//! Validated topic filter and topic name types.

use vstd::prelude::*;

use crate::strings::str_contains_ascii;
use crate::topic_matcher::validation::{
    filter_matches, spec_validate_topic_filter, spec_validate_topic_name, split_levels, strs_view,
    topic_levels, topic_matches, validate_topic_filter, validate_topic_name, TopicError,
    TopicFailure,
};

verus! {

/// A validated topic filter (for subscriptions). `+` matches a single topic
/// level, `#` any number of levels at the end.
#[derive(Debug, Eq, Hash)]
pub struct TopicFilter {
    filter: String,
    has_wildcards: bool,
}

/// Whether a filter holds a wildcard character.
pub open spec fn holds_wildcard(s: Seq<char>) -> bool {
    s.contains('+') || s.contains('#')
}

impl TopicFilter {
    /// The filter's text.
    pub closed spec fn text(&self) -> Seq<char> {
        self.filter@
    }

    /// The flag agrees with the text.
    #[verifier::type_invariant]
    spec fn well_formed(self) -> bool {
        self.has_wildcards == holds_wildcard(self.filter@)
    }

    /// Create a topic filter, validating it.
    pub fn new(filter: &str) -> (r: Result<Self, TopicError>)
        ensures
            match spec_validate_topic_filter(filter@) {
                Ok(()) => r matches Ok(f) && f.text() == filter@,
                Err(e) => r matches Err(x) && x@ == e,
            },
    {
        match validate_topic_filter(filter) {
            Err(e) => Err(e),
            Ok(()) => Ok(Self::new_unchecked(filter)),
        }
    }

    /// Create a topic filter without validation; the caller must know that
    /// the filter is valid.
    pub fn new_unchecked(filter: &str) -> (r: Self)
        ensures
            r.text() == filter@,
    {
        let has_wildcards = str_contains_ascii(filter, '+', 43u8) || str_contains_ascii(
            filter,
            '#',
            35u8,
        );
        TopicFilter { filter: filter.to_string(), has_wildcards }
    }

    /// Whether this filter contains wildcards.
    pub fn has_wildcards(&self) -> (r: bool)
        ensures
            r == holds_wildcard(self.text()),
    {
        proof {
            use_type_invariant(self);
        }
        self.has_wildcards
    }

    /// The filter as a string slice.
    pub fn as_str(&self) -> (r: &str)
        ensures
            r@ == self.text(),
    {
        self.filter.as_str()
    }

    /// The topic levels.
    pub fn levels(&self) -> (r: Vec<&str>)
        ensures
            strs_view(r@) == split_levels(self.text()),
    {
        topic_levels(self.filter.as_str())
    }

    /// Whether this filter matches a topic name.
    pub fn matches(&self, topic: &str) -> (r: bool)
        ensures
            r == filter_matches(self.text(), topic@),
    {
        topic_matches(self.filter.as_str(), topic)
    }

    /// The filter as an owned `String`.
    pub fn into_string(self) -> (r: String)
        ensures
            r@ == self.text(),
    {
        self.filter
    }
}

impl Clone for TopicFilter {
    fn clone(&self) -> (r: Self)
        ensures
            r.text() == self.text(),
    {
        proof {
            use_type_invariant(self);
        }
        TopicFilter { filter: self.filter.clone(), has_wildcards: self.has_wildcards }
    }
}

impl std::ops::Deref for TopicFilter {
    type Target = str;

    fn deref(&self) -> (r: &str)
        ensures
            r@ == self.text(),
    {
        self.filter.as_str()
    }
}

impl AsRef<str> for TopicFilter {
    fn as_ref(&self) -> (r: &str)
        ensures
            r@ == self.text(),
    {
        self.filter.as_str()
    }
}

impl PartialEq for TopicFilter {
    fn eq(&self, other: &Self) -> (r: bool) {
        self.filter == other.filter
    }
}

impl vstd::std_specs::cmp::PartialEqSpecImpl for TopicFilter {
    open spec fn obeys_eq_spec() -> bool {
        true
    }

    open spec fn eq_spec(&self, other: &Self) -> bool {
        self.text() == other.text()
    }
}

/// A validated topic name (for publishing); it holds no wildcard.
#[derive(Debug, Clone, PartialEq, Eq, Hash)]
pub struct TopicName {
    name: String,
}

impl TopicName {
    /// The name's text.
    pub closed spec fn text(&self) -> Seq<char> {
        self.name@
    }

    /// Create a topic name, validating it.
    pub fn new(name: &str) -> (r: Result<Self, TopicError>)
        ensures
            match spec_validate_topic_name(name@) {
                Ok(()) => r matches Ok(n) && n.text() == name@,
                Err(e) => r matches Err(x) && x@ == e,
            },
    {
        match validate_topic_name(name) {
            Err(e) => Err(e),
            Ok(()) => Ok(TopicName { name: name.to_string() }),
        }
    }

    /// Create a topic name without validation.
    pub fn new_unchecked(name: &str) -> (r: Self)
        ensures
            r.text() == name@,
    {
        TopicName { name: name.to_string() }
    }

    /// The name as a string slice.
    pub fn as_str(&self) -> (r: &str)
        ensures
            r@ == self.text(),
    {
        self.name.as_str()
    }

    /// The topic levels.
    pub fn levels(&self) -> (r: Vec<&str>)
        ensures
            strs_view(r@) == split_levels(self.text()),
    {
        topic_levels(self.name.as_str())
    }

    /// Whether this is a system topic (it starts with `$`).
    pub fn is_system(&self) -> (r: bool)
        ensures
            r == (self.text().len() > 0 && self.text()[0] == '$'),
    {
        crate::topic_matcher::validation::is_system_topic(self.name.as_str())
    }

    /// The name as an owned `String`.
    pub fn into_string(self) -> (r: String)
        ensures
            r@ == self.text(),
    {
        self.name
    }
}

impl std::ops::Deref for TopicName {
    type Target = str;

    fn deref(&self) -> (r: &str)
        ensures
            r@ == self.text(),
    {
        self.name.as_str()
    }
}

impl AsRef<str> for TopicName {
    fn as_ref(&self) -> (r: &str)
        ensures
            r@ == self.text(),
    {
        self.name.as_str()
    }
}

} // verus!
