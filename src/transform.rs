use vstd::prelude::*;
use vstd::string::StringExecFns;
use crate::error::TransformationError;
use crate::record::Record;
use crate::schema::{flatten, leaf_paths, Schema};

verus! {

/// A flat record viewed as a mapping from path to value.
pub type RecordMap = Map<Seq<char>, Seq<char>>;

/// A mapping rule from records of one shape to records of another.
pub trait TransformRule {
    /// The record the rule produces from `input`, or `None` where it fails.
    spec fn outcome(&self, input: RecordMap) -> Option<RecordMap>;

    /// The error the rule reports where it fails on `input`.
    spec fn failure(&self, input: RecordMap) -> TransformationError;

    /// Applies the rule, leaving `input` as it was.
    fn apply(&self, input: &Record) -> (r: Result<Record, TransformationError>)
        requires
            input.wf(),
        ensures
            match r {
                Ok(out) => out.wf() && self.outcome(input@) == Some(out@),
                Err(e) => self.outcome(input@) is None && e == self.failure(input@),
            },
    ;
}

/// The first path the concatenation rule reads.
pub open spec fn first_path() -> Seq<char> {
    seq!['f', 'i', 'e', 'l', 'd', '1']
}

/// The second path the concatenation rule reads.
pub open spec fn second_path() -> Seq<char> {
    seq!['f', 'i', 'e', 'l', 'd', '2']
}

/// The path the concatenation rule writes.
pub open spec fn joined_path() -> Seq<char> {
    seq!['f', 'i', 'e', 'l', 'd', '3']
}

/// What the concatenation rule makes of `input`: `field3` holding the values
/// of `field1` and `field2` joined by a space, or nothing where either is absent.
pub open spec fn concat_outcome(input: RecordMap) -> Option<RecordMap> {
    if input.contains_key(first_path()) && input.contains_key(second_path()) {
        Some(
            map![joined_path() => input[first_path()] + seq![' '] + input[second_path()]],
        )
    } else {
        None
    }
}

/// Joins `field1` and `field2` into `field3`; fails with `InvalidValue` where
/// either is missing.
pub struct ConcatRule;

impl TransformRule for ConcatRule {
    open spec fn outcome(&self, input: RecordMap) -> Option<RecordMap> {
        concat_outcome(input)
    }

    open spec fn failure(&self, input: RecordMap) -> TransformationError {
        TransformationError::InvalidValue
    }

    fn apply(&self, input: &Record) -> (r: Result<Record, TransformationError>) {
        let first = String::from_str("field1");
        let second = String::from_str("field2");
        proof {
            reveal_strlit("field1");
            reveal_strlit("field2");
            assert(first@ =~= first_path());
            assert(second@ =~= second_path());
        }
        let a = match input.get(&first) {
            Some(v) => v,
            None => return Err(TransformationError::InvalidValue),
        };
        let b = match input.get(&second) {
            Some(v) => v,
            None => return Err(TransformationError::InvalidValue),
        };
        let joined = a.clone().concat(" ").concat(b.as_str());
        let target = String::from_str("field3");
        proof {
            reveal_strlit(" ");
            reveal_strlit("field3");
            assert(target@ =~= joined_path());
            assert(" "@ =~= seq![' ']);
            assert(joined@ =~= input@[first_path()] + seq![' '] + input@[second_path()]);
        }
        let mut out = Record::new();
        out.insert(target, joined);
        proof {
            assert(out@ =~= concat_outcome(input@).unwrap());
        }
        Ok(out)
    }
}

/// Converts records shaped by `from` into records shaped by `to` through `rule`.
pub struct DataTransformer<R: TransformRule> {
    pub from: Schema,
    pub to: Schema,
    pub rule: R,
}

impl<R: TransformRule> DataTransformer<R> {
    /// An engine over the two schemas and the rule between them.
    pub fn new(from: Schema, to: Schema, rule: R) -> (r: Self)
        ensures
            r.from == from,
            r.to == to,
            r.rule == rule,
    {
        DataTransformer { from, to, rule }
    }

    /// The record the rule makes of `record`; `record` itself is left as it was.
    pub fn transform(&self, record: &Record) -> (r: Result<Record, TransformationError>)
        requires
            record.wf(),
        ensures
            match r {
                Ok(out) => out.wf() && self.rule.outcome(record@) == Some(out@),
                Err(e) => self.rule.outcome(record@) is None && e == self.rule.failure(record@),
            },
    {
        self.rule.apply(record)
    }

    /// The leaf paths of the source and of the target schema.
    pub fn get_schema_names(&self) -> (r: (Vec<String>, Vec<String>))
        ensures
            r.0.deep_view() == leaf_paths(self.from, Seq::empty()),
            r.1.deep_view() == leaf_paths(self.to, Seq::empty()),
    {
        let root = String::new();
        (flatten(&self.from, &root), flatten(&self.to, &root))
    }
}

/// Transforming equal records gives equal results: the engine keeps no state
/// between calls.
pub proof fn lemma_transform_deterministic<R: TransformRule>(
    engine: DataTransformer<R>,
    a: RecordMap,
    b: RecordMap,
)
    requires
        a == b,
    ensures
        engine.rule.outcome(a) == engine.rule.outcome(b),
        engine.rule.failure(a) == engine.rule.failure(b),
{
}

} // verus!
