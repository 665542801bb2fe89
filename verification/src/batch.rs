//! Batch targets: a pattern with the number of keys wanted and the number
//! found so far, and the ordered collection that a search run works on.

use vstd::prelude::*;
use vstd::utf8::encode_utf8;
use crate::parse::{parse_pattern, parse_spec, ConfigError, PatternShape};
use crate::pattern::VanityPattern;

verus! {

/// One search goal of a run.
#[derive(Debug, Clone)]
pub struct BatchPattern {
    /// The predicate that a key has to satisfy.
    pub pattern: VanityPattern,
    /// The text that the pattern was read from; it labels the target.
    pub pattern_str: String,
    /// How many keys are wanted.
    pub target_count: usize,
    /// How many keys have been credited to the target.
    pub current_count: usize,
}

/// The error, if any, with which a target of this text, position and count
/// is refused: what is wrong with the pattern first, then a count of zero.
pub open spec fn target_error(text: Seq<u8>, position: Option<usize>, target_count: usize)
    -> Option<ConfigError> {
    match parse_spec(text, position) {
        Err(e) => Some(e),
        Ok(_) => if target_count == 0 {
            Some(ConfigError::ZeroTargetCount)
        } else {
            None
        },
    }
}

impl BatchPattern {
    /// Enough keys have been credited.
    pub open spec fn complete(&self) -> bool {
        self.current_count >= self.target_count
    }

    /// The target still wants keys, and `key` is one for it.
    pub open spec fn wants(&self, key: Seq<u8>) -> bool {
        !self.complete() && self.pattern.matches_spec(key)
    }

    /// The target with one more key credited.
    pub open spec fn credited(self) -> BatchPattern {
        BatchPattern { current_count: (self.current_count + 1) as usize, ..self }
    }

    /// The target is the fresh one for this text, position and count.
    pub open spec fn is_fresh(&self, text: Seq<char>, position: Option<usize>, target_count: usize)
        -> bool {
        &&& parse_spec(encode_utf8(text), position) == Ok::<PatternShape, ConfigError>(
            self.pattern.shape(),
        )
        &&& self.pattern_str@ == text
        &&& self.target_count == target_count
        &&& self.current_count == 0
    }

    /// A fresh target, or the error with which the configuration is refused.
    /// The pattern is read first: what is wrong with it comes back unchanged,
    /// whatever the count.
    pub fn try_new(pattern_str: &str, position: Option<usize>, target_count: usize) -> (r: Result<
        Self,
        ConfigError,
    >)
        ensures
            match r {
                Ok(target) => target_error(encode_utf8(pattern_str@), position, target_count)
                    .is_none() && target.is_fresh(pattern_str@, position, target_count),
                Err(e) => target_error(encode_utf8(pattern_str@), position, target_count) == Some(
                    e,
                ),
            },
    {
        match parse_pattern(pattern_str, position) {
            Err(e) => Err(e),
            Ok(pattern) => {
                if target_count == 0 {
                    Err(ConfigError::ZeroTargetCount)
                } else {
                    Ok(
                        BatchPattern {
                            pattern,
                            pattern_str: pattern_str.to_owned(),
                            target_count,
                            current_count: 0,
                        },
                    )
                }
            },
        }
    }

    /// A fresh target; a refused configuration comes back as its message.
    pub fn new(pattern_str: &str, position: Option<usize>, target_count: usize) -> (r: Result<
        Self,
        String,
    >)
        ensures
            match r {
                Ok(target) => target_error(encode_utf8(pattern_str@), position, target_count)
                    .is_none() && target.is_fresh(pattern_str@, position, target_count),
                Err(message) => match target_error(
                    encode_utf8(pattern_str@),
                    position,
                    target_count,
                ) {
                    Some(e) => message@ == e.message_text(),
                    None => false,
                },
            },
    {
        match BatchPattern::try_new(pattern_str, position, target_count) {
            Ok(target) => Ok(target),
            Err(e) => Err(e.message()),
        }
    }

    /// Whether enough keys have been credited.
    pub fn is_complete(&self) -> (r: bool)
        ensures
            r == self.complete(),
    {
        self.current_count >= self.target_count
    }

    /// Credits one key to the target.
    pub fn increment(&mut self)
        requires
            old(self).current_count < usize::MAX,
        ensures
            *final(self) == old(self).credited(),
            final(self).current_count == old(self).current_count + 1,
    {
        self.current_count += 1;
    }
}

/// What is wrong with a pattern is what a target of it is refused with,
/// whatever the count.
pub proof fn lemma_pattern_error_first(
    text: Seq<u8>,
    position: Option<usize>,
    target_count: usize,
)
    ensures
        match parse_spec(text, position) {
            Err(e) => target_error(text, position, target_count) == Some(e),
            Ok(_) => target_error(text, position, target_count).is_none() <==> target_count > 0,
        },
{
}

/// Every target of the collection is complete.
pub open spec fn all_complete(targets: Seq<BatchPattern>) -> bool {
    forall|i: int| 0 <= i < targets.len() ==> (#[trigger] targets[i]).complete()
}

/// `i` is the first target in collection order that wants `key`.
pub open spec fn is_first_match(targets: Seq<BatchPattern>, key: Seq<u8>, i: int) -> bool {
    &&& 0 <= i < targets.len()
    &&& targets[i].wants(key)
    &&& forall|j: int| 0 <= j < i ==> !(#[trigger] targets[j]).wants(key)
}

/// No target wants `key`.
pub open spec fn no_match(targets: Seq<BatchPattern>, key: Seq<u8>) -> bool {
    forall|j: int| 0 <= j < targets.len() ==> !(#[trigger] targets[j]).wants(key)
}

/// Whether the run is complete: every target is.
pub fn batch_complete(targets: &[BatchPattern]) -> (r: bool)
    ensures
        r == all_complete(targets@),
{
    let n: usize = targets.len();
    let mut i: usize = 0;
    while i < n
        invariant
            n == targets@.len(),
            i <= n,
            forall|j: int| 0 <= j < i ==> (#[trigger] targets@[j]).complete(),
        decreases n - i,
    {
        if !targets[i].is_complete() {
            return false;
        }
        i += 1;
    }
    true
}

/// Credits `key` to the first target, in collection order, that is not
/// complete and whose pattern the key satisfies, and says which it was. At
/// most one target is credited, and a complete one never is.
pub fn record_first_match(targets: &mut Vec<BatchPattern>, key: &[u8]) -> (r: Option<usize>)
    ensures
        match r {
            Some(i) => is_first_match(old(targets)@, key@, i as int) && final(targets)@ == old(
                targets,
            )@.update(i as int, old(targets)@[i as int].credited()),
            None => no_match(old(targets)@, key@) && final(targets)@ == old(targets)@,
        },
{
    let n: usize = targets.len();
    let mut i: usize = 0;
    while i < n
        invariant
            n == targets@.len(),
            i <= n,
            targets@ == old(targets)@,
            forall|j: int| 0 <= j < i ==> !(#[trigger] targets@[j]).wants(key@),
        decreases n - i,
    {
        if !targets[i].is_complete() && targets[i].pattern.matches(key) {
            targets[i].increment();
            assert(targets@ =~= old(targets)@.update(i as int, old(targets)@[i as int].credited()));
            return Some(i);
        }
        i += 1;
    }
    None
}

/// The sum of the counts that the targets want.
pub open spec fn total_wanted(targets: Seq<BatchPattern>) -> nat
    decreases targets.len(),
{
    if targets.len() == 0 {
        0
    } else {
        total_wanted(targets.drop_last()) + targets.last().target_count as nat
    }
}

/// The sum of the counts that the targets have.
pub open spec fn total_found(targets: Seq<BatchPattern>) -> nat
    decreases targets.len(),
{
    if targets.len() == 0 {
        0
    } else {
        total_found(targets.drop_last()) + targets.last().current_count as nat
    }
}

/// The sums over a part of the collection are no more than over the whole.
proof fn lemma_totals_grow(targets: Seq<BatchPattern>, k: int)
    requires
        0 <= k <= targets.len(),
    ensures
        total_wanted(targets.take(k)) <= total_wanted(targets),
        total_found(targets.take(k)) <= total_found(targets),
    decreases targets.len() - k,
{
    if k == targets.len() {
        assert(targets.take(k) =~= targets);
    } else {
        lemma_totals_grow(targets.drop_last(), k);
        assert(targets.drop_last().take(k) =~= targets.take(k));
    }
}

/// The keys found and the keys wanted over all targets, in this order;
/// `None` where one of the sums does not fit `usize`.
pub fn batch_totals(targets: &[BatchPattern]) -> (r: Option<(usize, usize)>)
    ensures
        match r {
            Some(sums) => sums.0 == total_found(targets@) && sums.1 == total_wanted(targets@),
            None => total_found(targets@) > usize::MAX || total_wanted(targets@) > usize::MAX,
        },
{
    let n: usize = targets.len();
    let mut found: usize = 0;
    let mut wanted: usize = 0;
    let mut i: usize = 0;
    while i < n
        invariant
            n == targets@.len(),
            i <= n,
            found == total_found(targets@.take(i as int)),
            wanted == total_wanted(targets@.take(i as int)),
        decreases n - i,
    {
        proof {
            assert(targets@.take(i + 1).drop_last() =~= targets@.take(i as int));
            lemma_totals_grow(targets@, i + 1);
        }
        match found.checked_add(targets[i].current_count) {
            Some(sum) => {
                found = sum;
            },
            None => {
                return None;
            },
        }
        match wanted.checked_add(targets[i].target_count) {
            Some(sum) => {
                wanted = sum;
            },
            None => {
                return None;
            },
        }
        i += 1;
    }
    assert(targets@.take(n as int) =~= targets@);
    Some((found, wanted))
}

/// The collection of a run for a single pattern: one fresh target that
/// wants `count` keys. A refused configuration comes back as its message.
pub fn vanity_keys(pattern_str: &str, count: usize, position: Option<usize>) -> (r: Result<
    Vec<BatchPattern>,
    String,
>)
    ensures
        match r {
            Ok(targets) => target_error(encode_utf8(pattern_str@), position, count).is_none()
                && targets@.len() == 1 && targets@[0].is_fresh(pattern_str@, position, count),
            Err(message) => match target_error(encode_utf8(pattern_str@), position, count) {
                Some(e) => message@ == e.message_text(),
                None => false,
            },
        },
{
    match BatchPattern::new(pattern_str, position, count) {
        Ok(target) => {
            let mut targets: Vec<BatchPattern> = Vec::new();
            targets.push(target);
            Ok(targets)
        },
        Err(message) => Err(message),
    }
}

} // verus!
