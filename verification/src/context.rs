//! The shared blackboard of a pipeline run: a heterogeneous store of named,
//! typed attributes beside the immutable draw-record collection.
//!
//! A key is a name together with a value type; `get` with a key whose type
//! does not match the stored value behaves as "absent", never as a crash.

use vstd::prelude::*;

use crate::business_obj::BallOccurInterval;
use crate::context_obj::BallOccurInfo;
use crate::domain::PrBusinessObj;
use crate::generate_normalize_data::NormalizedRow;
use crate::mining::GroupPatterns;
use crate::occur::BallOccurrences;
use crate::processor::FinalProcessorChainResult;
use crate::relationship::{BlueBallRelationship, RedBallRelationship};

verus! {

/// An attribute value of any of the types the pipeline stores.
#[derive(Clone, Debug)]
pub enum AttrValue {
    Occurrences(BallOccurrences),
    BlueRelationships(Vec<BlueBallRelationship>),
    RedRelationships(Vec<RedBallRelationship>),
    GroupedPatterns(Vec<GroupPatterns>),
    Patterns(Vec<(Vec<u8>, usize)>),
    FollowingCounts(Vec<Vec<usize>>),
    FinalResults(Vec<FinalProcessorChainResult>),
    OccurInfos(Vec<BallOccurInfo>),
    Counts(Vec<usize>),
    SortedCounts(Vec<(u8, usize)>),
    Intervals(Vec<BallOccurInterval>),
    Columns(Vec<Vec<bool>>),
    NormalizedRows(Vec<NormalizedRow>),
}

impl AttrValue {
    /// Which value type an erased attribute value holds.
    pub open spec fn tag_of(self) -> int {
        match self {
            AttrValue::Occurrences(_) => 0,
            AttrValue::BlueRelationships(_) => 1,
            AttrValue::RedRelationships(_) => 2,
            AttrValue::GroupedPatterns(_) => 3,
            AttrValue::Patterns(_) => 4,
            AttrValue::FollowingCounts(_) => 5,
            AttrValue::FinalResults(_) => 6,
            AttrValue::OccurInfos(_) => 7,
            AttrValue::Counts(_) => 8,
            AttrValue::SortedCounts(_) => 9,
            AttrValue::Intervals(_) => 10,
            AttrValue::Columns(_) => 11,
            AttrValue::NormalizedRows(_) => 12,
        }
    }
}

/// A type that the blackboard can hold. Wrapping and unwrapping are inverse,
/// and unwrapping a value wrapped at another type yields nothing; together
/// these give the store its type safety.
pub trait ContextValue: Sized {
    /// A tag unique to this value type among the storable ones.
    spec fn tag() -> int;

    /// The value, erased.
    spec fn wrap_spec(self) -> AttrValue;

    /// The value a wrapped one holds at this type, if it holds one.
    spec fn unwrap_spec(v: AttrValue) -> Option<Self>;

    /// Unwrapping at the type a value was wrapped at yields the value back.
    proof fn lemma_wrap_unwrap(self)
        ensures
            Self::unwrap_spec(self.wrap_spec()) == Some(self),
            self.wrap_spec().tag_of() == Self::tag(),
    ;

    /// A value unwraps at this type exactly when it was wrapped at it.
    proof fn lemma_unwrap_tag(v: AttrValue)
        ensures
            Self::unwrap_spec(v) is Some <==> v.tag_of() == Self::tag(),
    ;

    fn wrap(self) -> (v: AttrValue)
        ensures
            v == self.wrap_spec(),
    ;

    fn try_ref(v: &AttrValue) -> (r: Option<&Self>)
        ensures
            match r {
                Some(x) => Self::unwrap_spec(*v) == Some(*x),
                None => Self::unwrap_spec(*v) is None,
            },
    ;
}

impl ContextValue for BallOccurrences {
    open spec fn tag() -> int {
        0
    }

    open spec fn wrap_spec(self) -> AttrValue {
        AttrValue::Occurrences(self)
    }

    open spec fn unwrap_spec(v: AttrValue) -> Option<Self> {
        match v {
            AttrValue::Occurrences(x) => Some(x),
            _ => None,
        }
    }

    proof fn lemma_wrap_unwrap(self) {
    }

    proof fn lemma_unwrap_tag(v: AttrValue) {
    }

    fn wrap(self) -> (v: AttrValue) {
        AttrValue::Occurrences(self)
    }

    fn try_ref(v: &AttrValue) -> (r: Option<&Self>) {
        match v {
            AttrValue::Occurrences(x) => Some(x),
            _ => None,
        }
    }
}

impl ContextValue for Vec<BlueBallRelationship> {
    open spec fn tag() -> int {
        1
    }

    open spec fn wrap_spec(self) -> AttrValue {
        AttrValue::BlueRelationships(self)
    }

    open spec fn unwrap_spec(v: AttrValue) -> Option<Self> {
        match v {
            AttrValue::BlueRelationships(x) => Some(x),
            _ => None,
        }
    }

    proof fn lemma_wrap_unwrap(self) {
    }

    proof fn lemma_unwrap_tag(v: AttrValue) {
    }

    fn wrap(self) -> (v: AttrValue) {
        AttrValue::BlueRelationships(self)
    }

    fn try_ref(v: &AttrValue) -> (r: Option<&Self>) {
        match v {
            AttrValue::BlueRelationships(x) => Some(x),
            _ => None,
        }
    }
}

impl ContextValue for Vec<RedBallRelationship> {
    open spec fn tag() -> int {
        2
    }

    open spec fn wrap_spec(self) -> AttrValue {
        AttrValue::RedRelationships(self)
    }

    open spec fn unwrap_spec(v: AttrValue) -> Option<Self> {
        match v {
            AttrValue::RedRelationships(x) => Some(x),
            _ => None,
        }
    }

    proof fn lemma_wrap_unwrap(self) {
    }

    proof fn lemma_unwrap_tag(v: AttrValue) {
    }

    fn wrap(self) -> (v: AttrValue) {
        AttrValue::RedRelationships(self)
    }

    fn try_ref(v: &AttrValue) -> (r: Option<&Self>) {
        match v {
            AttrValue::RedRelationships(x) => Some(x),
            _ => None,
        }
    }
}

impl ContextValue for Vec<GroupPatterns> {
    open spec fn tag() -> int {
        3
    }

    open spec fn wrap_spec(self) -> AttrValue {
        AttrValue::GroupedPatterns(self)
    }

    open spec fn unwrap_spec(v: AttrValue) -> Option<Self> {
        match v {
            AttrValue::GroupedPatterns(x) => Some(x),
            _ => None,
        }
    }

    proof fn lemma_wrap_unwrap(self) {
    }

    proof fn lemma_unwrap_tag(v: AttrValue) {
    }

    fn wrap(self) -> (v: AttrValue) {
        AttrValue::GroupedPatterns(self)
    }

    fn try_ref(v: &AttrValue) -> (r: Option<&Self>) {
        match v {
            AttrValue::GroupedPatterns(x) => Some(x),
            _ => None,
        }
    }
}

impl ContextValue for Vec<(Vec<u8>, usize)> {
    open spec fn tag() -> int {
        4
    }

    open spec fn wrap_spec(self) -> AttrValue {
        AttrValue::Patterns(self)
    }

    open spec fn unwrap_spec(v: AttrValue) -> Option<Self> {
        match v {
            AttrValue::Patterns(x) => Some(x),
            _ => None,
        }
    }

    proof fn lemma_wrap_unwrap(self) {
    }

    proof fn lemma_unwrap_tag(v: AttrValue) {
    }

    fn wrap(self) -> (v: AttrValue) {
        AttrValue::Patterns(self)
    }

    fn try_ref(v: &AttrValue) -> (r: Option<&Self>) {
        match v {
            AttrValue::Patterns(x) => Some(x),
            _ => None,
        }
    }
}

impl ContextValue for Vec<Vec<usize>> {
    open spec fn tag() -> int {
        5
    }

    open spec fn wrap_spec(self) -> AttrValue {
        AttrValue::FollowingCounts(self)
    }

    open spec fn unwrap_spec(v: AttrValue) -> Option<Self> {
        match v {
            AttrValue::FollowingCounts(x) => Some(x),
            _ => None,
        }
    }

    proof fn lemma_wrap_unwrap(self) {
    }

    proof fn lemma_unwrap_tag(v: AttrValue) {
    }

    fn wrap(self) -> (v: AttrValue) {
        AttrValue::FollowingCounts(self)
    }

    fn try_ref(v: &AttrValue) -> (r: Option<&Self>) {
        match v {
            AttrValue::FollowingCounts(x) => Some(x),
            _ => None,
        }
    }
}

impl ContextValue for Vec<FinalProcessorChainResult> {
    open spec fn tag() -> int {
        6
    }

    open spec fn wrap_spec(self) -> AttrValue {
        AttrValue::FinalResults(self)
    }

    open spec fn unwrap_spec(v: AttrValue) -> Option<Self> {
        match v {
            AttrValue::FinalResults(x) => Some(x),
            _ => None,
        }
    }

    proof fn lemma_wrap_unwrap(self) {
    }

    proof fn lemma_unwrap_tag(v: AttrValue) {
    }

    fn wrap(self) -> (v: AttrValue) {
        AttrValue::FinalResults(self)
    }

    fn try_ref(v: &AttrValue) -> (r: Option<&Self>) {
        match v {
            AttrValue::FinalResults(x) => Some(x),
            _ => None,
        }
    }
}

impl ContextValue for Vec<BallOccurInfo> {
    open spec fn tag() -> int {
        7
    }

    open spec fn wrap_spec(self) -> AttrValue {
        AttrValue::OccurInfos(self)
    }

    open spec fn unwrap_spec(v: AttrValue) -> Option<Self> {
        match v {
            AttrValue::OccurInfos(x) => Some(x),
            _ => None,
        }
    }

    proof fn lemma_wrap_unwrap(self) {
    }

    proof fn lemma_unwrap_tag(v: AttrValue) {
    }

    fn wrap(self) -> (v: AttrValue) {
        AttrValue::OccurInfos(self)
    }

    fn try_ref(v: &AttrValue) -> (r: Option<&Self>) {
        match v {
            AttrValue::OccurInfos(x) => Some(x),
            _ => None,
        }
    }
}

impl ContextValue for Vec<usize> {
    open spec fn tag() -> int {
        8
    }

    open spec fn wrap_spec(self) -> AttrValue {
        AttrValue::Counts(self)
    }

    open spec fn unwrap_spec(v: AttrValue) -> Option<Self> {
        match v {
            AttrValue::Counts(x) => Some(x),
            _ => None,
        }
    }

    proof fn lemma_wrap_unwrap(self) {
    }

    proof fn lemma_unwrap_tag(v: AttrValue) {
    }

    fn wrap(self) -> (v: AttrValue) {
        AttrValue::Counts(self)
    }

    fn try_ref(v: &AttrValue) -> (r: Option<&Self>) {
        match v {
            AttrValue::Counts(x) => Some(x),
            _ => None,
        }
    }
}

impl ContextValue for Vec<(u8, usize)> {
    open spec fn tag() -> int {
        9
    }

    open spec fn wrap_spec(self) -> AttrValue {
        AttrValue::SortedCounts(self)
    }

    open spec fn unwrap_spec(v: AttrValue) -> Option<Self> {
        match v {
            AttrValue::SortedCounts(x) => Some(x),
            _ => None,
        }
    }

    proof fn lemma_wrap_unwrap(self) {
    }

    proof fn lemma_unwrap_tag(v: AttrValue) {
    }

    fn wrap(self) -> (v: AttrValue) {
        AttrValue::SortedCounts(self)
    }

    fn try_ref(v: &AttrValue) -> (r: Option<&Self>) {
        match v {
            AttrValue::SortedCounts(x) => Some(x),
            _ => None,
        }
    }
}

impl ContextValue for Vec<BallOccurInterval> {
    open spec fn tag() -> int {
        10
    }

    open spec fn wrap_spec(self) -> AttrValue {
        AttrValue::Intervals(self)
    }

    open spec fn unwrap_spec(v: AttrValue) -> Option<Self> {
        match v {
            AttrValue::Intervals(x) => Some(x),
            _ => None,
        }
    }

    proof fn lemma_wrap_unwrap(self) {
    }

    proof fn lemma_unwrap_tag(v: AttrValue) {
    }

    fn wrap(self) -> (v: AttrValue) {
        AttrValue::Intervals(self)
    }

    fn try_ref(v: &AttrValue) -> (r: Option<&Self>) {
        match v {
            AttrValue::Intervals(x) => Some(x),
            _ => None,
        }
    }
}

impl ContextValue for Vec<Vec<bool>> {
    open spec fn tag() -> int {
        11
    }

    open spec fn wrap_spec(self) -> AttrValue {
        AttrValue::Columns(self)
    }

    open spec fn unwrap_spec(v: AttrValue) -> Option<Self> {
        match v {
            AttrValue::Columns(x) => Some(x),
            _ => None,
        }
    }

    proof fn lemma_wrap_unwrap(self) {
    }

    proof fn lemma_unwrap_tag(v: AttrValue) {
    }

    fn wrap(self) -> (v: AttrValue) {
        AttrValue::Columns(self)
    }

    fn try_ref(v: &AttrValue) -> (r: Option<&Self>) {
        match v {
            AttrValue::Columns(x) => Some(x),
            _ => None,
        }
    }
}

impl ContextValue for Vec<NormalizedRow> {
    open spec fn tag() -> int {
        12
    }

    open spec fn wrap_spec(self) -> AttrValue {
        AttrValue::NormalizedRows(self)
    }

    open spec fn unwrap_spec(v: AttrValue) -> Option<Self> {
        match v {
            AttrValue::NormalizedRows(x) => Some(x),
            _ => None,
        }
    }

    proof fn lemma_wrap_unwrap(self) {
    }

    proof fn lemma_unwrap_tag(v: AttrValue) {
    }

    fn wrap(self) -> (v: AttrValue) {
        AttrValue::NormalizedRows(self)
    }

    fn try_ref(v: &AttrValue) -> (r: Option<&Self>) {
        match v {
            AttrValue::NormalizedRows(x) => Some(x),
            _ => None,
        }
    }
}

/// An opaque, immutable lookup key: a human-readable name bound to the value
/// type `T`. Two keys address the same slot only if both the name and the
/// type match; the spec-level key of an attribute is therefore the pair of
/// its name and its type's tag.
#[derive(Debug)]
pub struct ProcessorContextAttr<T> {
    name: String,
    _val_type: core::marker::PhantomData<T>,
}

impl<T> ProcessorContextAttr<T> {
    pub closed spec fn spec_name(self) -> Seq<char> {
        self.name@
    }

    pub fn new(name: &str) -> (r: Self)
        ensures
            r.spec_name() == name@,
    {
        ProcessorContextAttr { name: name.to_owned(), _val_type: core::marker::PhantomData }
    }
}

/// Whether no two entries of an attribute list share both name and type.
pub open spec fn distinct_keys(s: Seq<(String, AttrValue)>) -> bool {
    forall|i: int, j: int|
        0 <= i < j < s.len() ==> !(s[i].0@ == s[j].0@ && s[i].1.tag_of() == s[j].1.tag_of())
}

/// The value stored under a name at a type, if any: the latest entry wins.
pub open spec fn spec_find(
    s: Seq<(String, AttrValue)>,
    name: Seq<char>,
    tag: int,
) -> Option<AttrValue>
    decreases s.len(),
{
    if s.len() == 0 {
        None
    } else if s.last().0@ == name && s.last().1.tag_of() == tag {
        Some(s.last().1)
    } else {
        spec_find(s.drop_last(), name, tag)
    }
}

/// The attribute list as a map from (name, type tag) keys to values.
pub open spec fn attrs_map(s: Seq<(String, AttrValue)>) -> Map<(Seq<char>, int), AttrValue> {
    Map::new(
        |k: (Seq<char>, int)| spec_find(s, k.0, k.1) is Some,
        |k: (Seq<char>, int)| spec_find(s, k.0, k.1)->Some_0,
    )
}

proof fn lemma_find_at(s: Seq<(String, AttrValue)>, name: Seq<char>, tag: int, i: int)
    requires
        distinct_keys(s),
        0 <= i < s.len(),
        s[i].0@ == name,
        s[i].1.tag_of() == tag,
    ensures
        spec_find(s, name, tag) == Some(s[i].1),
    decreases s.len(),
{
    if i < s.len() - 1 {
        assert(!(s.last().0@ == name && s.last().1.tag_of() == tag));
        lemma_find_at(s.drop_last(), name, tag, i);
    }
}

proof fn lemma_find_none(s: Seq<(String, AttrValue)>, name: Seq<char>, tag: int)
    requires
        forall|i: int|
            0 <= i < s.len() ==> !((#[trigger] s[i]).0@ == name && s[i].1.tag_of() == tag),
    ensures
        spec_find(s, name, tag) is None,
    decreases s.len(),
{
    if s.len() > 0 {
        lemma_find_none(s.drop_last(), name, tag);
    }
}

proof fn lemma_find_push(
    s: Seq<(String, AttrValue)>,
    p: (String, AttrValue),
    name: Seq<char>,
    tag: int,
)
    ensures
        spec_find(s.push(p), name, tag) == if p.0@ == name && p.1.tag_of() == tag {
            Some(p.1)
        } else {
            spec_find(s, name, tag)
        },
{
    assert(s.push(p).drop_last() =~= s);
}

proof fn lemma_find_remove(s: Seq<(String, AttrValue)>, i: int, name: Seq<char>, tag: int)
    requires
        distinct_keys(s),
        0 <= i < s.len(),
        !(s[i].0@ == name && s[i].1.tag_of() == tag),
    ensures
        spec_find(s.remove(i), name, tag) == spec_find(s, name, tag),
    decreases s.len(),
{
    if i == s.len() - 1 {
        assert(s.remove(i) =~= s.drop_last());
    } else {
        assert(s.remove(i).last() == s.last());
        assert(s.remove(i).drop_last() =~= s.drop_last().remove(i));
        if !(s.last().0@ == name && s.last().1.tag_of() == tag) {
            lemma_find_remove(s.drop_last(), i, name, tag);
        }
    }
}

/// The shared state of one pipeline run: the immutable draw records, the
/// requested result size, and the attributes the stages have written.
///
/// The view of a context is its attribute map, keyed by (name, type tag);
/// the records and the result size are reached through `spec_records` and
/// `spec_expect_result_size`.
pub struct ProcessorContext {
    prize_records: Vec<PrBusinessObj>,
    expect_result_size: usize,
    attributes: Vec<(String, AttrValue)>,
}

impl View for ProcessorContext {
    type V = Map<(Seq<char>, int), AttrValue>;

    closed spec fn view(&self) -> Map<(Seq<char>, int), AttrValue> {
        attrs_map(self.attributes@)
    }
}

impl ProcessorContext {
    /// The store never holds two entries of one name and one type.
    pub closed spec fn wf(self) -> bool {
        distinct_keys(self.attributes@)
    }

    pub closed spec fn spec_records(self) -> Seq<PrBusinessObj> {
        self.prize_records@
    }

    pub closed spec fn spec_expect_result_size(self) -> usize {
        self.expect_result_size
    }

    /// A fresh context bound to the given records, with no attributes yet.
    pub fn new(prize_records: Vec<PrBusinessObj>, expect_result_size: usize) -> (r: Self)
        ensures
            r.wf(),
            r.spec_records() == prize_records@,
            r.spec_expect_result_size() == expect_result_size,
            r@ == Map::<(Seq<char>, int), AttrValue>::empty(),
    {
        let r = ProcessorContext { prize_records, expect_result_size, attributes: Vec::new() };
        proof {
            assert(r@ =~= Map::<(Seq<char>, int), AttrValue>::empty());
        }
        r
    }

    pub fn get_prize_records(&self) -> (r: &Vec<PrBusinessObj>)
        ensures
            r@ == self.spec_records(),
    {
        &self.prize_records
    }

    pub fn expect_result_size(&self) -> (r: usize)
        ensures
            r == self.spec_expect_result_size(),
    {
        self.expect_result_size
    }

    /// Looks the key up. A value stored under the same name at another type
    /// occupies another slot, so it neither answers nor disturbs this one.
    pub fn get_attribute<T: ContextValue>(&self, attr: &ProcessorContextAttr<T>) -> (r: Option<
        &T,
    >)
        requires
            self.wf(),
        ensures
            match r {
                Some(x) => self@.contains_key((attr.spec_name(), T::tag()))
                    && T::unwrap_spec(self@[(attr.spec_name(), T::tag())]) == Some(*x),
                None => !self@.contains_key((attr.spec_name(), T::tag())),
            },
    {
        let n = self.attributes.len();
        let mut i: usize = 0;
        while i < n
            invariant
                n == self.attributes@.len(),
                i <= n,
                self.wf(),
                forall|k: int|
                    0 <= k < i ==> !((#[trigger] self.attributes@[k]).0@ == attr.spec_name()
                        && self.attributes@[k].1.tag_of() == T::tag()),
            decreases n - i,
        {
            if self.attributes[i].0 == attr.name {
                match T::try_ref(&self.attributes[i].1) {
                    Some(x) => {
                        proof {
                            T::lemma_unwrap_tag(self.attributes@[i as int].1);
                            lemma_find_at(self.attributes@, attr.spec_name(), T::tag(), i as int);
                        }
                        return Some(x);
                    },
                    None => {
                        proof {
                            T::lemma_unwrap_tag(self.attributes@[i as int].1);
                        }
                    },
                }
            }
            i = i + 1;
        }
        proof {
            lemma_find_none(self.attributes@, attr.spec_name(), T::tag());
        }
        None
    }

    /// Stores the value under the key, replacing and returning what this
    /// (name, type) slot held before, if anything. A value of another type
    /// under the same name is untouched.
    pub fn set_attribute<T: ContextValue>(
        &mut self,
        attr: &ProcessorContextAttr<T>,
        value: T,
    ) -> (prev: Option<AttrValue>)
        requires
            old(self).wf(),
        ensures
            final(self).wf(),
            final(self).spec_records() == old(self).spec_records(),
            final(self).spec_expect_result_size() == old(self).spec_expect_result_size(),
            final(self)@ == old(self)@.insert(
                (attr.spec_name(), T::tag()),
                value.wrap_spec(),
            ),
            prev == if old(self)@.contains_key((attr.spec_name(), T::tag())) {
                Some(old(self)@[(attr.spec_name(), T::tag())])
            } else {
                Option::<AttrValue>::None
            },
    {
        proof {
            value.lemma_wrap_unwrap();
        }
        let ghost s0 = self.attributes@;
        let ghost name = attr.spec_name();
        let ghost tag = T::tag();
        let n = self.attributes.len();
        let mut i: usize = 0;
        while i < n
            invariant
                *self == *old(self),
                n == self.attributes@.len(),
                i <= n,
                s0 == self.attributes@,
                name == attr.spec_name(),
                tag == T::tag(),
                distinct_keys(s0),
                forall|k: int|
                    0 <= k < i ==> !((#[trigger] s0[k]).0@ == name && s0[k].1.tag_of() == tag),
            decreases n - i,
        {
            let name_matches = self.attributes[i].0 == attr.name;
            let type_matches = name_matches && T::try_ref(&self.attributes[i].1).is_some();
            proof {
                T::lemma_unwrap_tag(s0[i as int].1);
            }
            if type_matches {
                proof {
                    lemma_find_at(s0, name, tag, i as int);
                }
                let removed = self.attributes.remove(i);
                self.attributes.push((attr.name.clone(), value.wrap()));
                proof {
                    value.lemma_wrap_unwrap();
                    let s1 = s0.remove(i as int);
                    assert(distinct_keys(s1)) by {
                        assert(forall|a: int|
                            0 <= a < s1.len() ==> s1[a] == if a < i {
                                s0[a]
                            } else {
                                s0[a + 1]
                            });
                    }
                    assert(forall|k: int|
                        0 <= k < s1.len() ==> !((#[trigger] s1[k]).0@ == name && s1[k].1.tag_of()
                            == tag));
                    lemma_find_none(s1, name, tag);
                    assert(self.attributes@ == s1.push((attr.name, value.wrap_spec())));
                    assert(distinct_keys(self.attributes@));
                    assert(final(self)@ =~= old(self)@.insert(
                        (name, tag),
                        value.wrap_spec(),
                    )) by {
                        assert forall|k: (Seq<char>, int)| true implies spec_find(
                            s1.push((attr.name, value.wrap_spec())),
                            k.0,
                            k.1,
                        ) == if k == (name, tag) {
                            Some(value.wrap_spec())
                        } else {
                            spec_find(s0, k.0, k.1)
                        } by {
                            lemma_find_push(s1, (attr.name, value.wrap_spec()), k.0, k.1);
                            if k != (name, tag) {
                                lemma_find_remove(s0, i as int, k.0, k.1);
                            }
                        }
                    }
                }
                return Some(removed.1);
            }
            i = i + 1;
        }
        proof {
            lemma_find_none(s0, name, tag);
        }
        self.attributes.push((attr.name.clone(), value.wrap()));
        proof {
            assert(distinct_keys(self.attributes@)) by {
                assert(forall|a: int|
                    0 <= a < s0.len() ==> (#[trigger] self.attributes@[a]) == s0[a]);
            }
            assert(final(self)@ =~= old(self)@.insert((name, tag), value.wrap_spec())) by {
                assert forall|k: (Seq<char>, int)| true implies spec_find(
                    self.attributes@,
                    k.0,
                    k.1,
                ) == if k == (name, tag) {
                    Some(value.wrap_spec())
                } else {
                    spec_find(s0, k.0, k.1)
                } by {
                    lemma_find_push(s0, (self.attributes@.last().0, value.wrap_spec()), k.0, k.1);
                    assert(self.attributes@.drop_last() =~= s0);
                }
            }
        }
        None
    }
}

/// What a map holds for a name at a type.
pub open spec fn stored_at<T: ContextValue>(
    m: Map<(Seq<char>, int), AttrValue>,
    name: Seq<char>,
) -> Option<T> {
    if m.contains_key((name, T::tag())) {
        T::unwrap_spec(m[(name, T::tag())])
    } else {
        None
    }
}

/// Round-trip law of the store: after a value is set under a key, getting
/// with the identical key (same name, same type) yields exactly that value.
pub proof fn lemma_context_round_trip<T: ContextValue>(
    m: Map<(Seq<char>, int), AttrValue>,
    name: Seq<char>,
    value: T,
)
    ensures
        stored_at::<T>(m.insert((name, T::tag()), value.wrap_spec()), name) == Some(value),
{
    value.lemma_wrap_unwrap();
}

/// Type-mismatch law of the store: keys of one name and different types
/// address different slots, so a set at one type neither replaces nor
/// reveals what the same name holds at another type.
pub proof fn lemma_context_type_mismatch<T: ContextValue, U: ContextValue>(
    m: Map<(Seq<char>, int), AttrValue>,
    name: Seq<char>,
    value: U,
)
    requires
        T::tag() != U::tag(),
    ensures
        stored_at::<T>(m.insert((name, U::tag()), value.wrap_spec()), name) == stored_at::<T>(
            m,
            name,
        ),
{
}

} // verus!
