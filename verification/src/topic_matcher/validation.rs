//! Topic validation and matching per MQTT 3.1.1 §4.7.

use vstd::prelude::*;

use vstd::utf8::encode_utf8;

use crate::strings::str_contains_ascii;

verus! {

/// The topic levels of `s`: the pieces between the `/` separators (a text
/// without separators is one level; empty levels are kept).
pub open spec fn split_levels(s: Seq<char>) -> Seq<Seq<char>>
    decreases s.len(),
{
    if s.len() == 0 {
        seq![Seq::<char>::empty()]
    } else {
        let init = split_levels(s.drop_last());
        if s.last() == '/' {
            init.push(Seq::<char>::empty())
        } else {
            init.update(init.len() - 1, init.last().push(s.last()))
        }
    }
}

/// A text always has at least one level.
pub proof fn lemma_split_levels_nonempty(s: Seq<char>)
    ensures
        split_levels(s).len() >= 1,
    decreases s.len(),
{
    if s.len() > 0 {
        lemma_split_levels_nonempty(s.drop_last());
    }
}

/// The characters of a string, in order.
pub fn chars_of(s: &str) -> (r: Vec<char>)
    ensures
        r@ == s@,
{
    let mut v: Vec<char> = Vec::new();
    for c in it: s.chars()
        invariant
            v@ == it.seq().take(it.index() as int),
            it.seq() == s@,
    {
        v.push(c);
        assert(v@ =~= it.seq().take(it.index() as int + 1));
    }
    assert(v@ =~= s@);
    v
}

/// The views of a list of string slices.
pub open spec fn strs_view(v: Seq<&str>) -> Seq<Seq<char>> {
    v.map_values(|l: &str| l@)
}

/// Split a topic into its levels.
pub fn topic_levels<'a>(topic: &'a str) -> (r: Vec<&'a str>)
    ensures
        strs_view(r@) == split_levels(topic@),
{
    let chars = chars_of(topic);
    let n = chars.len();
    let mut levels: Vec<&'a str> = Vec::new();
    let mut start: usize = 0;
    let mut i: usize = 0;
    assert(topic@.take(0) =~= Seq::<char>::empty());
    assert(strs_view(levels@) + seq![topic@.subrange(0, 0)] =~= split_levels(topic@.take(0)));
    while i < n
        invariant
            chars@ == topic@,
            n == topic@.len(),
            start <= i <= n,
            strs_view(levels@) + seq![topic@.subrange(start as int, i as int)] == split_levels(
                topic@.take(i as int),
            ),
        decreases n - i,
    {
        let ghost before = topic@.take(i as int);
        assert(topic@.take(i as int + 1).drop_last() =~= before);
        assert(topic@.take(i as int + 1).last() == topic@[i as int]);
        if chars[i] == '/' {
            let ghost old_levels = levels@;
            let level = topic.substring_char(start, i);
            levels.push(level);
            start = i + 1;
            assert(levels@ == old_levels.push(level));
            assert(strs_view(levels@) =~= strs_view(old_levels).push(level@));
            assert(topic@.subrange(start as int, i as int + 1) =~= Seq::<char>::empty());
            assert(strs_view(levels@) + seq![topic@.subrange(start as int, i as int + 1)]
                =~= split_levels(before).push(Seq::<char>::empty()));
        } else {
            let ghost prev = split_levels(before);
            assert(topic@.subrange(start as int, i as int + 1) =~= topic@.subrange(
                start as int,
                i as int,
            ).push(topic@[i as int]));
            assert(strs_view(levels@) + seq![topic@.subrange(start as int, i as int + 1)]
                =~= prev.update(prev.len() - 1, prev.last().push(topic@[i as int])));
        }
        i = i + 1;
    }
    let last = topic.substring_char(start, n);
    levels.push(last);
    assert(topic@.take(n as int) =~= topic@);
    assert(strs_view(levels@) =~= strs_view(levels@.drop_last()).push(last@));
    levels
}

/// The single-level wildcard level `+`.
pub open spec fn plus_level() -> Seq<char> {
    seq!['+']
}

/// The multi-level wildcard level `#`.
pub open spec fn hash_level() -> Seq<char> {
    seq!['#']
}

/// Matching filter levels against topic levels, MQTT 3.1.1 §4.7: `#`
/// matches the rest (the parent level included), `+` matches exactly one
/// level, any other level must be equal.
pub open spec fn levels_match(f: Seq<Seq<char>>, t: Seq<Seq<char>>) -> bool
    decreases f.len(),
{
    if f.len() == 0 {
        t.len() == 0
    } else if f[0] == hash_level() {
        true
    } else if t.len() == 0 {
        false
    } else if f[0] == plus_level() || f[0] == t[0] {
        levels_match(f.drop_first(), t.drop_first())
    } else {
        false
    }
}

/// Each filter level fits the topic level at its place: `+` fits any level,
/// any other filter level only an equal one.
pub open spec fn levels_fit(f: Seq<Seq<char>>, t: Seq<Seq<char>>) -> bool {
    forall|i: int| 0 <= i < f.len() ==> (#[trigger] f[i] == plus_level() || f[i] == t[i])
}

/// A filter without `#` matches exactly the topics with as many levels,
/// each `+` standing for any one level and every other level for itself
/// (so a filter without wildcards matches only the equal topic).
pub proof fn lemma_levels_match_without_hash(f: Seq<Seq<char>>, t: Seq<Seq<char>>)
    requires
        forall|i: int| 0 <= i < f.len() ==> #[trigger] f[i] != hash_level(),
    ensures
        levels_match(f, t) <==> (t.len() == f.len() && levels_fit(f, t)),
    decreases f.len(),
{
    if f.len() > 0 && t.len() > 0 {
        let f1 = f.drop_first();
        let t1 = t.drop_first();
        assert forall|i: int| 0 <= i < f1.len() implies #[trigger] f1[i] != hash_level() by {
            assert(f1[i] == f[i + 1]);
        }
        lemma_levels_match_without_hash(f1, t1);
        assert(f[0] != hash_level());
        if t.len() == f.len() && levels_fit(f, t) {
            assert forall|i: int| 0 <= i < f1.len() implies (#[trigger] f1[i] == plus_level() || f1[i] == t1[i]) by {
                assert(f1[i] == f[i + 1]);
                assert(t1[i] == t[i + 1]);
            }
            assert(f[0] == plus_level() || f[0] == t[0]);
        }
        if levels_match(f, t) {
            assert forall|i: int| 0 <= i < f.len() implies (#[trigger] f[i] == plus_level() || f[i] == t[i]) by {
                if i > 0 {
                    assert(f1[i - 1] == f[i]);
                    assert(t1[i - 1] == t[i]);
                }
            }
        }
    }
}

/// A filter ending in `#` (with no other `#`) matches exactly the topics
/// that have at least the levels before the `#` and fit them: `#` stands
/// for any number of further levels, none included.
pub proof fn lemma_levels_match_trailing_hash(p: Seq<Seq<char>>, t: Seq<Seq<char>>)
    requires
        forall|i: int| 0 <= i < p.len() ==> #[trigger] p[i] != hash_level(),
    ensures
        levels_match(p.push(hash_level()), t) <==> (t.len() >= p.len() && levels_fit(p, t)),
    decreases p.len(),
{
    let f = p.push(hash_level());
    if p.len() == 0 {
        assert(f[0] == hash_level());
    } else if t.len() > 0 {
        let p1 = p.drop_first();
        let t1 = t.drop_first();
        assert forall|i: int| 0 <= i < p1.len() implies #[trigger] p1[i] != hash_level() by {
            assert(p1[i] == p[i + 1]);
        }
        lemma_levels_match_trailing_hash(p1, t1);
        assert(f.drop_first() =~= p1.push(hash_level()));
        assert(f[0] == p[0]);
        assert(p[0] != hash_level());
        if t.len() >= p.len() && levels_fit(p, t) {
            assert forall|i: int| 0 <= i < p1.len() implies (#[trigger] p1[i] == plus_level() || p1[i] == t1[i]) by {
                assert(p1[i] == p[i + 1]);
                assert(t1[i] == t[i + 1]);
            }
            assert(p[0] == plus_level() || p[0] == t[0]);
        }
        if levels_match(f, t) {
            assert forall|i: int| 0 <= i < p.len() implies (#[trigger] p[i] == plus_level() || p[i] == t[i]) by {
                if i > 0 {
                    assert(p1[i - 1] == p[i]);
                    assert(t1[i - 1] == t[i]);
                }
            }
        }
    } else {
        assert(f[0] == p[0]);
    }
}

/// The topic filter `filter` matches the topic name `topic`.
pub open spec fn filter_matches(filter: Seq<char>, topic: Seq<char>) -> bool {
    levels_match(split_levels(filter), split_levels(topic))
}

/// True when the level is exactly `s`, a one-character literal.
pub(crate) fn level_is(level: &str, s: &str, c: char) -> (r: bool)
    requires
        s@ == seq![c],
    ensures
        r == (level@ == seq![c]),
{
    crate::strings::str_equal(level, s)
}

/// Check whether a topic filter matches a topic name (MQTT 3.1.1 §4.7).
pub fn topic_matches(filter: &str, topic: &str) -> (r: bool)
    ensures
        r == filter_matches(filter@, topic@),
{
    proof {
        reveal_strlit("#");
        reveal_strlit("+");
        assert("#"@ =~= seq!['#']);
        assert("+"@ =~= seq!['+']);
    }
    // Special case: filter "#" matches everything
    if level_is(filter, "#", '#') {
        proof {
            assert(filter@.drop_last() =~= Seq::<char>::empty());
            assert(split_levels(Seq::<char>::empty()) == seq![Seq::<char>::empty()]);
            assert(split_levels(filter@) =~= seq![hash_level()]);
        }
        return true;
    }
    let filter_levels = topic_levels(filter);
    let topic_levels = topic_levels(topic);
    let ghost f = strs_view(filter_levels@);
    let ghost t = strs_view(topic_levels@);
    let mut fi: usize = 0;
    let mut ti: usize = 0;
    assert(f.skip(0) =~= f);
    assert(t.skip(0) =~= t);
    while fi < filter_levels.len()
        invariant
            f == strs_view(filter_levels@),
            t == strs_view(topic_levels@),
            f == split_levels(filter@),
            t == split_levels(topic@),
            f.len() == filter_levels@.len(),
            t.len() == topic_levels@.len(),
            "#"@ == seq!['#'],
            "+"@ == seq!['+'],
            fi == ti,
            fi <= f.len(),
            ti <= t.len(),
            levels_match(f.skip(fi as int), t.skip(ti as int)) == levels_match(f, t),
        decreases f.len() - fi,
    {
        let filter_level = filter_levels[fi];
        assert(f.skip(fi as int)[0] == filter_level@);
        // Multi-level wildcard matches the rest
        if level_is(filter_level, "#", '#') {
            assert(levels_match(f.skip(fi as int), t.skip(ti as int)));
            return true;
        }
        // No more topic levels to match
        if ti >= topic_levels.len() {
            assert(t.skip(ti as int).len() == 0);
            return false;
        }
        let topic_level = topic_levels[ti];
        assert(t.skip(ti as int)[0] == topic_level@);
        assert(f.skip(fi as int).drop_first() =~= f.skip(fi as int + 1));
        assert(t.skip(ti as int).drop_first() =~= t.skip(ti as int + 1));
        // Single-level wildcard matches exactly one level; otherwise an
        // exact match is required
        if !level_is(filter_level, "+", '+') && !crate::strings::str_equal(filter_level, topic_level) {
            return false;
        }
        fi = fi + 1;
        ti = ti + 1;
    }
    // Both must be exhausted for a match
    assert(f.skip(fi as int).len() == 0);
    assert(ti == topic_levels.len() <==> t.skip(ti as int).len() == 0);
    ti == topic_levels.len()
}

/// Check if a topic matches a filter (`topic_matches` with the arguments
/// the other way round).
pub fn matches_filter(topic: &str, filter: &str) -> (r: bool)
    ensures
        r == filter_matches(filter@, topic@),
{
    topic_matches(filter, topic)
}

/// Errors related to topic names and filters.
#[derive(Debug, Clone, PartialEq, Eq)]
pub enum TopicError {
    /// Topic is empty.
    Empty,
    /// Topic exceeds the maximum length (65535 bytes).
    TooLong,
    /// Topic contains the null character (U+0000).
    ContainsNull,
    /// Wildcard in an invalid position.
    InvalidWildcard { wildcard: char, reason: &'static str },
    /// Topic name contains a wildcard (not allowed in PUBLISH).
    WildcardInTopicName,
    /// Multi-level wildcard not at the end.
    MultiLevelNotAtEnd,
    /// Invalid UTF-8.
    InvalidUtf8,
}

/// What a topic error says, as plain values.
pub enum TopicFailure {
    Empty,
    TooLong,
    ContainsNull,
    InvalidWildcard(char, Seq<char>),
    WildcardInTopicName,
    MultiLevelNotAtEnd,
    InvalidUtf8,
}

impl View for TopicError {
    type V = TopicFailure;

    open spec fn view(&self) -> TopicFailure {
        match self {
            TopicError::Empty => TopicFailure::Empty,
            TopicError::TooLong => TopicFailure::TooLong,
            TopicError::ContainsNull => TopicFailure::ContainsNull,
            TopicError::InvalidWildcard { wildcard, reason } => TopicFailure::InvalidWildcard(
                *wildcard,
                reason@,
            ),
            TopicError::WildcardInTopicName => TopicFailure::WildcardInTopicName,
            TopicError::MultiLevelNotAtEnd => TopicFailure::MultiLevelNotAtEnd,
            TopicError::InvalidUtf8 => TopicFailure::InvalidUtf8,
        }
    }
}

impl TopicError {
    /// The error's message.
    pub fn message(&self) -> (r: String)
        ensures
            r@ == topic_error_message(self@),
    {
        match self {
            TopicError::Empty => "topic cannot be empty".to_string(),
            TopicError::TooLong => "topic exceeds maximum length of 65535 bytes".to_string(),
            TopicError::ContainsNull => "topic cannot contain null character".to_string(),
            TopicError::InvalidWildcard { wildcard, reason } => {
                let mut m = "wildcard '".to_string();
                m.append(if *wildcard == '+' { "+" } else if *wildcard == '#' { "#" } else { "?" });
                m.append("' in invalid position: ");
                m.append(reason);
                m
            },
            TopicError::WildcardInTopicName => "topic name cannot contain wildcards".to_string(),
            TopicError::MultiLevelNotAtEnd => "multi-level wildcard '#' must be last character".to_string(),
            TopicError::InvalidUtf8 => "topic must be valid UTF-8".to_string(),
        }
    }
}

/// The message of a topic error.
pub open spec fn topic_error_message(e: TopicFailure) -> Seq<char> {
    match e {
        TopicFailure::Empty => "topic cannot be empty"@,
        TopicFailure::TooLong => "topic exceeds maximum length of 65535 bytes"@,
        TopicFailure::ContainsNull => "topic cannot contain null character"@,
        TopicFailure::InvalidWildcard(w, reason) => "wildcard '"@ + (if w == '+' {
            "+"@
        } else if w == '#' {
            "#"@
        } else {
            "?"@
        }) + "' in invalid position: "@ + reason,
        TopicFailure::WildcardInTopicName => "topic name cannot contain wildcards"@,
        TopicFailure::MultiLevelNotAtEnd => "multi-level wildcard '#' must be last character"@,
        TopicFailure::InvalidUtf8 => "topic must be valid UTF-8"@,
    }
}

/// Validating a topic name (MQTT 3.1.1 §4.7): at least one character, at
/// most 65535 bytes of UTF-8, no null character and no wildcard.
pub open spec fn spec_validate_topic_name(s: Seq<char>) -> Result<(), TopicFailure> {
    if s.len() == 0 {
        Err(TopicFailure::Empty)
    } else if encode_utf8(s).len() > 65535 {
        Err(TopicFailure::TooLong)
    } else if s.contains('\0') {
        Err(TopicFailure::ContainsNull)
    } else if s.contains('+') || s.contains('#') {
        Err(TopicFailure::WildcardInTopicName)
    } else {
        Ok(())
    }
}

/// The reason given when a wildcard does not occupy a whole level.
pub open spec fn whole_level_reason() -> Seq<char> {
    "must occupy entire topic level"@
}

/// What is wrong with one level of a topic filter, if anything: a wildcard
/// that shares its level with other characters, or a `#` before the last
/// level.
pub open spec fn level_error(level: Seq<char>, is_last: bool) -> Option<TopicFailure> {
    if level.contains('+') && level != plus_level() {
        Some(TopicFailure::InvalidWildcard('+', whole_level_reason()))
    } else if level.contains('#') && level != hash_level() {
        Some(TopicFailure::InvalidWildcard('#', whole_level_reason()))
    } else if level.contains('#') && !is_last {
        Some(TopicFailure::MultiLevelNotAtEnd)
    } else {
        None
    }
}

/// The error of the first faulty level from index `i` on.
pub open spec fn first_level_error(levels: Seq<Seq<char>>, i: nat) -> Option<TopicFailure>
    decreases levels.len() - i,
{
    if i >= levels.len() {
        None
    } else {
        match level_error(levels[i as int], i == levels.len() - 1) {
            Some(e) => Some(e),
            None => first_level_error(levels, i + 1),
        }
    }
}

/// Validating a topic filter (MQTT 3.1.1 §4.7): the checks of a topic name
/// but for wildcards, which must each occupy a whole level, `#` only the
/// last one.
pub open spec fn spec_validate_topic_filter(s: Seq<char>) -> Result<(), TopicFailure> {
    if s.len() == 0 {
        Err(TopicFailure::Empty)
    } else if encode_utf8(s).len() > 65535 {
        Err(TopicFailure::TooLong)
    } else if s.contains('\0') {
        Err(TopicFailure::ContainsNull)
    } else {
        match first_level_error(split_levels(s), 0) {
            Some(e) => Err(e),
            None => Ok(()),
        }
    }
}

/// With no faulty level from `i` on, every level from `i` on passes.
proof fn lemma_no_level_error(levels: Seq<Seq<char>>, i: nat)
    requires
        first_level_error(levels, i) is None,
    ensures
        forall|j: int| i <= j < levels.len() ==> level_error(#[trigger] levels[j], j == levels.len() - 1) is None,
    decreases levels.len() - i,
{
    if i < levels.len() {
        lemma_no_level_error(levels, i + 1);
    }
}

/// In a valid topic filter each wildcard is a whole level, and `#` can only
/// be the last level.
pub proof fn lemma_valid_filter_levels(s: Seq<char>)
    requires
        spec_validate_topic_filter(s) is Ok,
    ensures
        forall|j: int| 0 <= j < split_levels(s).len() ==> (#[trigger] split_levels(s)[j]).contains('+')
            ==> split_levels(s)[j] == plus_level(),
        forall|j: int| 0 <= j < split_levels(s).len() ==> (#[trigger] split_levels(s)[j]).contains('#')
            ==> split_levels(s)[j] == hash_level() && j == split_levels(s).len() - 1,
        forall|j: int| 0 <= j < split_levels(s).len() - 1 ==> #[trigger] split_levels(s)[j] != hash_level(),
{
    let l = split_levels(s);
    lemma_no_level_error(l, 0);
    assert forall|j: int| 0 <= j < l.len() - 1 implies #[trigger] l[j] != hash_level() by {
        assert(level_error(l[j], j == l.len() - 1) is None);
        if l[j] == hash_level() {
            assert(l[j][0] == '#');
            assert(l[j].contains('#'));
        }
    }
    assert forall|j: int| 0 <= j < l.len() && (#[trigger] l[j]).contains('#') implies l[j] == hash_level() && j == l.len() - 1 by {
        assert(level_error(l[j], j == l.len() - 1) is None);
    }
    assert forall|j: int| 0 <= j < l.len() && (#[trigger] l[j]).contains('+') implies l[j] == plus_level() by {
        assert(level_error(l[j], j == l.len() - 1) is None);
    }
}

/// `r` is the validation result that `s` describes.
pub open spec fn validated_as(r: Result<(), TopicError>, s: Result<(), TopicFailure>) -> bool {
    match s {
        Ok(()) => r is Ok,
        Err(e) => r matches Err(x) && x@ == e,
    }
}

/// Validate a topic name (used in PUBLISH packets); topic names must not
/// contain wildcards.
pub fn validate_topic_name(topic: &str) -> (r: Result<(), TopicError>)
    ensures
        validated_as(r, spec_validate_topic_name(topic@)),
{
    if topic.is_empty() {
        return Err(TopicError::Empty);
    }
    // UTF-8 byte length
    if topic.as_bytes().len() > 65535 {
        return Err(TopicError::TooLong);
    }
    if str_contains_ascii(topic, '\0', 0u8) {
        return Err(TopicError::ContainsNull);
    }
    // Wildcards are not allowed in topic names
    if str_contains_ascii(topic, '+', 43u8) || str_contains_ascii(topic, '#', 35u8) {
        return Err(TopicError::WildcardInTopicName);
    }
    Ok(())
}

/// Check one level of a topic filter.
fn check_level(level: &str, is_last: bool) -> (r: Result<(), TopicError>)
    ensures
        match level_error(level@, is_last) {
            Some(e) => r matches Err(x) && x@ == e,
            None => r is Ok,
        },
{
    proof {
        reveal_strlit("#");
        reveal_strlit("+");
        reveal_strlit("must occupy entire topic level");
        assert("#"@ =~= seq!['#']);
        assert("+"@ =~= seq!['+']);
    }
    // Single-level wildcard
    if str_contains_ascii(level, '+', 43u8) && !level_is(level, "+", '+') {
        return Err(
            TopicError::InvalidWildcard { wildcard: '+', reason: "must occupy entire topic level" },
        );
    }
    // Multi-level wildcard
    if str_contains_ascii(level, '#', 35u8) {
        if !level_is(level, "#", '#') {
            return Err(
                TopicError::InvalidWildcard {
                    wildcard: '#',
                    reason: "must occupy entire topic level",
                },
            );
        }
        if !is_last {
            return Err(TopicError::MultiLevelNotAtEnd);
        }
    }
    Ok(())
}

/// Validate a topic filter (used in SUBSCRIBE packets); filters may hold
/// wildcards, each occupying a whole level, `#` only as the last one.
pub fn validate_topic_filter(filter: &str) -> (r: Result<(), TopicError>)
    ensures
        validated_as(r, spec_validate_topic_filter(filter@)),
{
    if filter.is_empty() {
        return Err(TopicError::Empty);
    }
    if filter.as_bytes().len() > 65535 {
        return Err(TopicError::TooLong);
    }
    if str_contains_ascii(filter, '\0', 0u8) {
        return Err(TopicError::ContainsNull);
    }
    // Validate wildcard positions
    let levels = topic_levels(filter);
    let ghost lv = strs_view(levels@);
    let mut i: usize = 0;
    while i < levels.len()
        invariant
            lv == strs_view(levels@),
            lv == split_levels(filter@),
            lv.len() == levels@.len(),
            i <= levels@.len(),
            first_level_error(lv, i as nat) == first_level_error(lv, 0),
            filter@.len() != 0,
            encode_utf8(filter@).len() <= 65535,
            !filter@.contains('\0'),
        decreases levels@.len() - i,
    {
        let is_last = i == levels.len() - 1;
        assert(lv[i as int] == levels@[i as int]@);
        match check_level(levels[i], is_last) {
            Err(e) => return Err(e),
            Ok(()) => {},
        }
        i = i + 1;
    }
    assert(first_level_error(lv, i as nat) is None);
    Ok(())
}

/// Check if a topic filter contains wildcards.
pub fn has_wildcards(filter: &str) -> (r: bool)
    ensures
        r == (filter@.contains('+') || filter@.contains('#')),
{
    str_contains_ascii(filter, '+', 43u8) || str_contains_ascii(filter, '#', 35u8)
}

/// Check if a topic starts with `$` (a system topic).
pub fn is_system_topic(topic: &str) -> (r: bool)
    ensures
        r == (topic@.len() > 0 && topic@[0] == '$'),
{
    let chars = chars_of(topic);
    chars.len() > 0 && chars[0] == '$'
}

} // verus!
