//! Limit definitions, the conditions under which one applies to a request,
//! and the registry that holds the limits of a process.

use vstd::prelude::*;
use crate::error::ConflictError;

verus! {

/// The strings of a list, as a set.
pub open spec fn strings_set(list: Seq<String>) -> Set<Seq<char>> {
    Set::new(|text: Seq<char>| exists|i: int| 0 <= i < list.len() && (#[trigger] list[i])@ == text)
}

/// What a limit is: a namespace, a maximum count per window, the window in
/// seconds, the conditions under which it applies and the variables whose
/// values tell its counters apart.
#[verifier::ext_equal]
pub struct LimitModel {
    pub namespace: Seq<char>,
    pub max_value: int,
    pub seconds: nat,
    pub conditions: Set<Seq<char>>,
    pub variables: Set<Seq<char>>,
}

/// A limit as configured. Its namespace is the name under which it is
/// registered and under which its counters are reported. The order of
/// `conditions` and `variables`, and repeated entries in them, carry no
/// meaning.
#[derive(Clone, Debug, PartialEq, Eq)]
pub struct LimitDefinition {
    pub namespace: String,
    pub max_value: i64,
    pub seconds: u64,
    pub conditions: Vec<String>,
    pub variables: Vec<String>,
}

impl View for LimitDefinition {
    type V = LimitModel;

    open spec fn view(&self) -> LimitModel {
        LimitModel {
            namespace: self.namespace@,
            max_value: self.max_value as int,
            seconds: self.seconds as nat,
            conditions: strings_set(self.conditions@),
            variables: strings_set(self.variables@),
        }
    }
}

/// The text between the two operands of a condition: `" == "`.
pub open spec fn separator() -> Seq<char> {
    seq![' ', '=', '=', ' ']
}

/// The separator stands in `condition` at index `at`.
pub open spec fn separates(condition: Seq<char>, at: int) -> bool {
    0 <= at && at + 4 <= condition.len() && condition.subrange(at, at + 4) == separator()
}

/// The separator stands in `condition` at index `at` and nowhere else.
pub open spec fn splits_at(condition: Seq<char>, at: int) -> bool {
    separates(condition, at) && forall|other: int| #[trigger]
        separates(condition, other) ==> other == at
}

/// `condition` holds the separator.
pub open spec fn has_separator(condition: Seq<char>) -> bool {
    exists|at: int| #[trigger] separates(condition, at)
}

/// `condition` reads `attribute == value`: it holds the separator once.
pub open spec fn is_equality(condition: Seq<char>) -> bool {
    exists|at: int| #[trigger] splits_at(condition, at)
}

/// Whether limitador's `Limit::applies` is true of `values` for a limit
/// with these conditions and variables.
pub uninterp spec fn engine_applies(
    conditions: Set<Seq<char>>,
    variables: Set<Seq<char>>,
    values: Map<Seq<char>, Seq<char>>,
) -> bool;

/// What stands before the separator at `at`: the attribute's name.
pub open spec fn left_operand(condition: Seq<char>, at: int) -> Seq<char> {
    condition.subrange(0, at)
}

/// What stands after the separator at `at`: the value asked for.
pub open spec fn right_operand(condition: Seq<char>, at: int) -> Seq<char> {
    condition.subrange(at + 4, condition.len() as int)
}

/// `condition` reads `attribute == value`, and the attribute is present in
/// `values` with the value that the condition asks for.
pub open spec fn condition_holds(condition: Seq<char>, values: Map<Seq<char>, Seq<char>>) -> bool {
    exists|at: int|
        {
            &&& #[trigger] splits_at(condition, at)
            &&& values.contains_key(left_operand(condition, at))
            &&& values[left_operand(condition, at)] == right_operand(condition, at)
        }
}

impl LimitModel {
    /// Every condition holds the separator, and the maximum is one from
    /// which the engine can count down in 64 bits.
    pub open spec fn valid(self) -> bool {
        &&& i64::MIN < self.max_value <= i64::MAX
        &&& forall|condition: Seq<char>| #[trigger]
            self.conditions.contains(condition) ==> has_separator(condition)
    }

    /// Every condition reads `attribute == value`.
    pub open spec fn reads_as_equalities(self) -> bool {
        forall|condition: Seq<char>| #[trigger] self.conditions.contains(condition) ==> is_equality(condition)
    }

    /// The limit applies to a request with the attributes `values`. Where
    /// every condition reads `attribute == value`, that is: all its
    /// conditions hold and all its variables have a value. Where a
    /// condition holds the separator more than once, the limit applies as
    /// the engine finds.
    pub open spec fn applies(self, values: Map<Seq<char>, Seq<char>>) -> bool {
        if self.reads_as_equalities() {
            &&& forall|condition: Seq<char>| #[trigger]
                self.conditions.contains(condition) ==> condition_holds(condition, values)
            &&& forall|variable: Seq<char>| #[trigger]
                self.variables.contains(variable) ==> values.contains_key(variable)
        } else {
            engine_applies(self.conditions, self.variables, values)
        }
    }
}

/// The one rule of this filter: at most 3 `GET` requests in 20 seconds for
/// each value of the header `x-user-id`.
pub open spec fn standard_limit() -> LimitModel {
    LimitModel {
        namespace: "ratelimitfilter"@,
        max_value: 3,
        seconds: 20,
        conditions: set!["req.method == GET"@],
        variables: set!["req.headers.x-user-id"@],
    }
}

/// The condition of the standard limit names `req.method` and asks for `GET`.
pub proof fn lemma_standard_condition()
    ensures
        splits_at("req.method == GET"@, 10),
        left_operand("req.method == GET"@, 10) == "req.method"@,
        right_operand("req.method == GET"@, 10) == "GET"@,
{
    reveal_strlit("req.method == GET");
    reveal_strlit("req.method");
    reveal_strlit("GET");
    let condition = "req.method == GET"@;
    assert(condition.subrange(10, 14) =~= separator());
    assert forall|other: int| #[trigger] separates(condition, other) implies other == 10 by {
        let found = condition.subrange(other, other + 4);
        assert(found[0] == condition[other]);
        assert(found[3] == condition[other + 3]);
    }
    assert(left_operand(condition, 10) =~= "req.method"@);
    assert(right_operand(condition, 10) =~= "GET"@);
}

/// The standard limit is valid, and applies to exactly the requests whose
/// method is `GET` and which carry the header `x-user-id`.
pub proof fn lemma_standard_limit_applies(values: Map<Seq<char>, Seq<char>>)
    ensures
        standard_limit().valid(),
        standard_limit().applies(values) <==> {
            &&& values.contains_key("req.method"@)
            &&& values["req.method"@] == "GET"@
            &&& values.contains_key("req.headers.x-user-id"@)
        },
{
    lemma_standard_condition();
    let limit = standard_limit();
    let condition = "req.method == GET"@;
    assert(limit.conditions.contains(condition));
    assert(limit.variables.contains("req.headers.x-user-id"@));
    assert(is_equality(condition));
    if limit.applies(values) {
        assert(condition_holds(condition, values));
    }
    if values.contains_key("req.method"@) && values["req.method"@] == "GET"@ {
        assert(condition_holds(condition, values));
    }
}

/// Whether the separator stands in `text` at index `at`.
fn separator_at(text: &str, at: usize, length: usize) -> (found: bool)
    requires
        length == text@.len(),
        at + 4 <= length,
    ensures
        found == separates(text@, at as int),
{
    let found = text.get_char(at) == ' ' && text.get_char(at + 1) == '=' && text.get_char(at + 2) == '='
        && text.get_char(at + 3) == ' ';
    proof {
        let part = text@.subrange(at as int, at + 4);
        assert(part[0] == text@[at as int]);
        assert(part[1] == text@[at + 1]);
        assert(part[2] == text@[at + 2]);
        assert(part[3] == text@[at + 3]);
        if found {
            assert(part =~= separator());
        }
    }
    found
}

/// Whether `condition` holds the separator.
pub fn holds_separator(condition: &String) -> (found: bool)
    ensures
        found == has_separator(condition@),
{
    let text = condition.as_str();
    let length: usize = text.unicode_len();
    if length < 4 {
        assert(forall|at: int| !separates(condition@, at));
        return false;
    }
    let mut at: usize = 0;
    while at <= length - 4
        invariant
            4 <= length == text@.len(),
            text@ == condition@,
            at <= length - 3,
            forall|other: int| 0 <= other < at ==> !#[trigger] separates(condition@, other),
        decreases length - at,
    {
        if separator_at(text, at, length) {
            return true;
        }
        at += 1;
    }
    assert(forall|other: int| !separates(condition@, other));
    false
}

impl LimitDefinition {
    /// Whether the limit is valid.
    pub fn is_valid(&self) -> (valid: bool)
        ensures
            valid == self@.valid(),
    {
        if self.max_value == i64::MIN {
            return false;
        }
        let mut i: usize = 0;
        while i < self.conditions.len()
            invariant
                i <= self.conditions.len(),
                forall|k: int| 0 <= k < i ==> has_separator((#[trigger] self.conditions@[k])@),
            decreases self.conditions.len() - i,
        {
            if !holds_separator(&self.conditions[i]) {
                assert(self@.conditions.contains(self.conditions@[i as int]@));
                return false;
            }
            i += 1;
        }
        true
    }

    /// A limit with the given parts.
    pub fn new(
        namespace: String,
        max_value: i64,
        seconds: u64,
        conditions: Vec<String>,
        variables: Vec<String>,
    ) -> (limit: LimitDefinition)
        ensures
            limit.namespace == namespace,
            limit.max_value == max_value,
            limit.seconds == seconds,
            limit.conditions == conditions,
            limit.variables == variables,
    {
        LimitDefinition { namespace, max_value, seconds, conditions, variables }
    }

    /// The one rule of this filter.
    pub fn standard() -> (limit: LimitDefinition)
        ensures
            limit@ == standard_limit(),
            limit@.valid(),
    {
        let mut conditions: Vec<String> = Vec::new();
        conditions.push("req.method == GET".to_string());
        let mut variables: Vec<String> = Vec::new();
        variables.push("req.headers.x-user-id".to_string());
        let limit = LimitDefinition {
            namespace: "ratelimitfilter".to_string(),
            max_value: 3,
            seconds: 20,
            conditions,
            variables,
        };
        proof {
            lemma_standard_limit_applies(Map::empty());
            assert(limit.conditions@[0]@ == "req.method == GET"@);
            assert(limit.variables@[0]@ == "req.headers.x-user-id"@);
            assert(limit@.conditions =~= standard_limit().conditions);
            assert(limit@.variables =~= standard_limit().variables);
            assert(limit@ =~= standard_limit());
        }
        limit
    }
}

/// The limits of a process, in the order in which they were registered. No
/// two of them share a namespace.
pub struct LimitRegistry {
    limits: Vec<LimitDefinition>,
}

impl View for LimitRegistry {
    type V = Seq<LimitModel>;

    closed spec fn view(&self) -> Seq<LimitModel> {
        self.limits@.map_values(|limit: LimitDefinition| limit@)
    }
}

impl LimitRegistry {
    /// A limit of this namespace is registered.
    pub open spec fn has_namespace(&self, namespace: Seq<char>) -> bool {
        exists|i: int| 0 <= i < self@.len() && (#[trigger] self@[i]).namespace == namespace
    }

    /// Every limit is valid and no two share a namespace.
    pub open spec fn wf(&self) -> bool {
        &&& forall|i: int| 0 <= i < self@.len() ==> (#[trigger] self@[i]).valid()
        &&& forall|i: int, j: int|
            0 <= i < j < self@.len() ==> (#[trigger] self@[i]).namespace != (#[trigger] self@[j]).namespace
    }

    /// The limits as a set.
    pub open spec fn limits(&self) -> Set<LimitModel> {
        self@.to_set()
    }

    /// A registry without limits.
    pub fn new() -> (registry: LimitRegistry)
        ensures
            registry@ == Seq::<LimitModel>::empty(),
            registry.wf(),
    {
        let registry = LimitRegistry { limits: Vec::new() };
        assert(registry@ =~= Seq::<LimitModel>::empty());
        registry
    }

    /// Adds `limit` behind the limits already there, unless one of them has
    /// its namespace: then nothing changes and the conflict is reported.
    pub fn register(&mut self, limit: LimitDefinition) -> (r: Result<(), ConflictError>)
        requires
            old(self).wf(),
            limit@.valid(),
        ensures
            final(self).wf(),
            r is Err <==> old(self).has_namespace(limit@.namespace),
            r is Ok ==> final(self)@ == old(self)@.push(limit@),
            r is Err ==> final(self)@ == old(self)@,
    {
        let mut i: usize = 0;
        while i < self.limits.len()
            invariant
                i <= self.limits.len(),
                *self == *old(self),
                self.wf(),
                limit@.valid(),
                forall|k: int| 0 <= k < i ==> (#[trigger] self@[k]).namespace != limit@.namespace,
            decreases self.limits.len() - i,
        {
            if self.limits[i].namespace == limit.namespace {
                assert(self@[i as int].namespace == limit@.namespace);
                return Err(ConflictError);
            }
            i += 1;
        }
        let ghost added = limit@;
        self.limits.push(limit);
        assert(self@ =~= old(self)@.push(added));
        Ok(())
    }

    /// The limits, in the order of their registration.
    pub fn all(&self) -> (limits: &Vec<LimitDefinition>)
        ensures
            limits@.map_values(|limit: LimitDefinition| limit@) == self@,
    {
        &self.limits
    }

    /// The registry of this filter: the standard limit alone.
    pub fn standard() -> (registry: LimitRegistry)
        ensures
            registry@ == seq![standard_limit()],
            registry.wf(),
    {
        let mut registry = LimitRegistry::new();
        let registered = registry.register(LimitDefinition::standard());
        assert(registered is Ok);
        assert(registry@ =~= seq![standard_limit()]);
        registry
    }
}

} // verus!
