//! What orders the rule can be asked for.

use super::names::{default_order, default_order_names, is_known_member_type, is_member_type};
use crate::text::{concat3, str_eq, views};
use vstd::prelude::*;

verus! {

/// The name of a type of members.
#[derive(Debug, Clone)]
pub struct MemberTypeName(pub String);

/// A name as it is shown: with spaces for dashes.
pub open spec fn shown(name: Seq<char>) -> Seq<char> {
    name.map_values(
        |c: char|
            if c == '-' {
                ' '
            } else {
                c
            },
    )
}

impl MemberTypeName {
    /// The name is one of a type of members.
    pub open spec fn wf(self) -> bool {
        is_member_type(self.0@)
    }

    /// Takes the name of a type of members; any other text is an error.
    pub fn parse(value: String) -> (r: Result<MemberTypeName, String>)
        ensures
            match r {
                Ok(name) => is_member_type(value@) && name.0 == value && name.wf(),
                Err(message) => !is_member_type(value@) && message@ == "unknown member type `"@
                    + value@ + "`"@,
            },
    {
        if is_known_member_type(value.as_str()) {
            Ok(MemberTypeName(value))
        } else {
            Err(concat3("unknown member type `", value.as_str(), "`"))
        }
    }

    /// The text of the name.
    pub fn as_str(&self) -> (r: &str)
        ensures
            r@ == self.0@,
    {
        self.0.as_str()
    }

    /// The name as it is shown.
    pub fn display(&self) -> (r: String)
        ensures
            r@ == shown(self.0@),
    {
        let text = self.0.as_str();
        let length = text.unicode_len();
        let ghost all = shown(self.0@);
        let mut r = String::new();
        let mut i: usize = 0;
        proof {
            reveal_strlit(" ");
            assert(all.take(0) =~= Seq::empty());
        }
        while i < length
            invariant
                i <= length,
                length == text@.len(),
                text@ == self.0@,
                all == shown(self.0@),
                r@ == all.take(i as int),
                " "@ =~= seq![' '],
            decreases length - i,
        {
            let ghost before = r@;
            if text.get_char(i) == '-' {
                r.append(" ");
            } else {
                r.append(text.substring_char(i, i + 1));
            }
            proof {
                assert(r@ =~= before.push(all[i as int]));
                assert(all.take(i + 1) =~= all.take(i as int).push(all[i as int]));
            }
            i += 1;
        }
        proof {
            assert(all.take(all.len() as int) =~= all);
        }
        r
    }
}

/// Types of members that may be mixed.
#[derive(Debug, Clone)]
pub enum MemberTypeGroup {
    Single(MemberTypeName),
    Group(Vec<MemberTypeName>),
}

/// The texts of names.
pub open spec fn name_views(list: Seq<MemberTypeName>) -> Seq<Seq<char>> {
    list.map_values(|n: MemberTypeName| n.0@)
}

/// Names as they are shown, one after another.
pub open spec fn shown_list(list: Seq<Seq<char>>) -> Seq<char>
    decreases list.len(),
{
    if list.len() == 0 {
        Seq::empty()
    } else if list.len() == 1 {
        shown(list[0])
    } else {
        shown_list(list.drop_last()) + ", "@ + shown(list.last())
    }
}

impl View for MemberTypeGroup {
    type V = Seq<Seq<char>>;

    open spec fn view(&self) -> Seq<Seq<char>> {
        match self {
            MemberTypeGroup::Single(name) => seq![name.0@],
            MemberTypeGroup::Group(names) => name_views(names@),
        }
    }
}

/// What groups hold.
pub open spec fn group_views(list: Seq<MemberTypeGroup>) -> Seq<Seq<Seq<char>>> {
    list.map_values(|g: MemberTypeGroup| g@)
}

impl MemberTypeGroup {
    /// Whether the group holds a type.
    pub fn contains(&self, candidate: &str) -> (r: bool)
        ensures
            r == self@.contains(candidate@),
    {
        match self {
            MemberTypeGroup::Single(name) => {
                proof {
                    assert(self@[0] == name.0@);
                }
                str_eq(name.as_str(), candidate)
            },
            MemberTypeGroup::Group(names) => {
                let mut i: usize = 0;
                while i < names.len()
                    invariant
                        i <= names@.len(),
                        self@ == name_views(names@),
                        forall|k: int| 0 <= k < i ==> self@[k] != candidate@,
                    decreases names@.len() - i,
                {
                    if str_eq(names[i].as_str(), candidate) {
                        proof {
                            assert(self@[i as int] == candidate@);
                        }
                        return true;
                    }
                    i += 1;
                }
                false
            },
        }
    }

    /// The group as it is shown.
    pub fn display(&self) -> (r: String)
        ensures
            r@ == shown_list(self@),
    {
        match self {
            MemberTypeGroup::Single(name) => name.display(),
            MemberTypeGroup::Group(names) => {
                let ghost all = name_views(names@);
                let mut r = String::new();
                let mut i: usize = 0;
                proof {
                    assert(all.take(0) =~= Seq::empty());
                }
                while i < names.len()
                    invariant
                        i <= names@.len(),
                        all == name_views(names@),
                        r@ == shown_list(all.take(i as int)),
                    decreases names@.len() - i,
                {
                    let ghost before = r@;
                    let name = names[i].display();
                    proof {
                        assert(all.take(i + 1).drop_last() =~= all.take(i as int));
                        assert(all.take(i + 1).last() == names@[i as int].0@);
                    }
                    if i > 0 {
                        r.append(", ");
                    }
                    r.append(name.as_str());
                    proof {
                        if i == 0 {
                            assert(r@ =~= name@);
                        }
                    }
                    i += 1;
                }
                proof {
                    assert(all.take(all.len() as int) =~= all);
                }
                r
            },
        }
    }
}

/// The word that switches an order off.
#[derive(Debug, Clone, Copy, PartialEq, Eq, Structural)]
pub enum Never {
    Never,
}

/// How names are sorted.
#[derive(Debug, Clone, Copy, PartialEq, Eq, Structural)]
pub enum Order {
    Alphabetically,
    AlphabeticallyCaseInsensitive,
    AsWritten,
    Natural,
    NaturalCaseInsensitive,
}

impl Default for Order {
    fn default() -> (r: Order)
        ensures
            r == Order::AsWritten,
    {
        Order::AsWritten
    }
}

impl Order {
    /// Whether names are sorted at all.
    pub fn is_sorted(self) -> (r: bool)
        ensures
            r == (self != Order::AsWritten),
    {
        match self {
            Order::AsWritten => false,
            _ => true,
        }
    }
}

/// Whether optional members come before or after the others.
#[derive(Debug, Clone, Copy, PartialEq, Eq, Structural)]
pub enum OptionalityOrder {
    OptionalFirst,
    RequiredFirst,
}

/// The types of members to put in order, or none.
#[derive(Debug, Clone)]
pub enum MemberTypesOption {
    Never(Never),
    Types(Vec<MemberTypeGroup>),
}

/// An order with all that can be asked for.
#[derive(Debug, Clone)]
pub struct SortedOrderConfig {
    /// The types of members to put in order; the default ones where nothing is said.
    pub member_types: Option<MemberTypesOption>,
    pub optionality_order: Option<OptionalityOrder>,
    /// How names are sorted among members of one type.
    pub order: Order,
}

impl Default for SortedOrderConfig {
    fn default() -> (r: SortedOrderConfig)
        ensures
            r == (SortedOrderConfig {
                member_types: None,
                optionality_order: None,
                order: Order::AsWritten,
            }),
    {
        SortedOrderConfig { member_types: None, optionality_order: None, order: Order::AsWritten }
    }
}

/// An order of members.
#[derive(Debug, Clone)]
pub enum OrderConfig {
    Never(Never),
    MemberTypes(Vec<MemberTypeGroup>),
    Sorted(SortedOrderConfig),
}

/// The default order, each type in a group of its own.
pub open spec fn default_groups() -> Seq<Seq<Seq<char>>> {
    default_order().map_values(|name: Seq<char>| seq![name])
}

/// Every group is one type, and not a list of types.
pub open spec fn all_single(list: Seq<MemberTypeGroup>) -> bool {
    forall|i: int| 0 <= i < list.len() ==> #[trigger] list[i] is Single
}

/// The default order, each type in a group of its own.
pub fn default_member_types() -> (r: Vec<MemberTypeGroup>)
    ensures
        group_views(r@) == default_groups(),
        all_single(r@),
{
    let names = default_order_names();
    let ghost all = default_groups();
    let mut r: Vec<MemberTypeGroup> = Vec::new();
    let mut i: usize = 0;
    while i < names.len()
        invariant
            i <= names@.len(),
            views(names@) == default_order(),
            all == default_groups(),
            r@.len() == i,
            forall|k: int| 0 <= k < i ==> (#[trigger] r@[k])@ == all[k],
            all_single(r@),
        decreases names@.len() - i,
    {
        let name = names[i].clone();
        proof {
            assert(default_order()[i as int] == names@[i as int]@);
        }
        r.push(MemberTypeGroup::Single(MemberTypeName(name)));
        i += 1;
    }
    proof {
        assert(names@.len() == default_order().len());
        assert(group_views(r@) =~= all);
    }
    r
}

/// The default order, for where nothing is said.
pub fn default_member_types_static() -> (r: Vec<MemberTypeGroup>)
    ensures
        group_views(r@) == default_groups(),
        all_single(r@),
{
    default_member_types()
}

/// An order by the default types, each in a group of its own, with names as written.
pub open spec fn is_default_order(config: OrderConfig) -> bool {
    &&& config matches OrderConfig::Sorted(sorted)
    &&& sorted.optionality_order is None
    &&& sorted.order == Order::AsWritten
    &&& sorted.member_types matches Some(MemberTypesOption::Types(types))
    &&& group_views(types@) == default_groups()
    &&& all_single(types@)
}

impl Default for OrderConfig {
    fn default() -> (r: OrderConfig)
        ensures
            is_default_order(r),
    {
        OrderConfig::Sorted(
            SortedOrderConfig {
                member_types: Some(MemberTypesOption::Types(default_member_types())),
                optionality_order: None,
                order: Order::AsWritten,
            },
        )
    }
}

/// Types of members, given or the default ones.
#[derive(Debug)]
pub enum MemberTypes<'a> {
    Given(&'a Vec<MemberTypeGroup>),
    Default(Vec<MemberTypeGroup>),
}

impl<'a> View for MemberTypes<'a> {
    type V = Seq<Seq<Seq<char>>>;

    open spec fn view(&self) -> Seq<Seq<Seq<char>>> {
        match self {
            MemberTypes::Given(types) => group_views(types@),
            MemberTypes::Default(types) => group_views(types@),
        }
    }
}

impl<'a> MemberTypes<'a> {
    /// The groups.
    pub fn as_slice(&self) -> (r: &[MemberTypeGroup])
        ensures
            group_views(r@) == self@,
    {
        match self {
            MemberTypes::Given(types) => types.as_slice(),
            MemberTypes::Default(types) => types.as_slice(),
        }
    }
}

/// An order with nothing left unsaid.
#[derive(Debug)]
pub struct NormalizedOrderConfig<'a> {
    pub member_types: Option<MemberTypes<'a>>,
    pub optionality_order: Option<OptionalityOrder>,
    pub order: Order,
}

/// What a [`NormalizedOrderConfig`] holds.
pub ghost struct Normalized {
    pub member_types: Option<Seq<Seq<Seq<char>>>>,
    pub optionality_order: Option<OptionalityOrder>,
    pub order: Order,
}

impl<'a> View for NormalizedOrderConfig<'a> {
    type V = Normalized;

    open spec fn view(&self) -> Normalized {
        Normalized {
            member_types: match self.member_types {
                Some(types) => Some(types@),
                None => None,
            },
            optionality_order: self.optionality_order,
            order: self.order,
        }
    }
}

/// What an order asks for, if anything.
pub open spec fn normalized(config: OrderConfig) -> Option<Normalized> {
    match config {
        OrderConfig::Never(_) => None,
        OrderConfig::MemberTypes(types) => Some(
            Normalized {
                member_types: Some(group_views(types@)),
                optionality_order: None,
                order: Order::AsWritten,
            },
        ),
        OrderConfig::Sorted(sorted) => Some(
            Normalized {
                member_types: match sorted.member_types {
                    Some(MemberTypesOption::Never(_)) => None,
                    Some(MemberTypesOption::Types(types)) => Some(group_views(types@)),
                    None => Some(default_groups()),
                },
                optionality_order: sorted.optionality_order,
                order: sorted.order,
            },
        ),
    }
}

/// Whether types of members are the ones of an order: those that it gives, as it gives them, or
/// the default ones.
pub open spec fn are_types_of(types: Option<MemberTypes>, config: OrderConfig) -> bool {
    match config {
        OrderConfig::Never(_) => false,
        OrderConfig::MemberTypes(given) => types == Some(MemberTypes::Given(&given)),
        OrderConfig::Sorted(sorted) => match sorted.member_types {
            Some(MemberTypesOption::Never(_)) => types is None,
            Some(MemberTypesOption::Types(given)) => types == Some(MemberTypes::Given(&given)),
            None => types matches Some(MemberTypes::Default(list)) && group_views(list@)
                == default_groups() && all_single(list@),
        },
    }
}

impl<'a> NormalizedOrderConfig<'a> {
    /// What an order asks for, if anything.
    pub fn new(config: &'a OrderConfig) -> (r: Option<NormalizedOrderConfig<'a>>)
        ensures
            normalized(*config) == (match r {
                Some(n) => Some(n@),
                None => None,
            }),
            r matches Some(n) ==> are_types_of(n.member_types, *config),
    {
        match config {
            OrderConfig::Never(_) => None,
            OrderConfig::MemberTypes(member_types) => Some(
                NormalizedOrderConfig {
                    member_types: Some(MemberTypes::Given(member_types)),
                    optionality_order: None,
                    order: Order::AsWritten,
                },
            ),
            OrderConfig::Sorted(sorted) => {
                let member_types = match &sorted.member_types {
                    Some(MemberTypesOption::Never(_)) => None,
                    Some(MemberTypesOption::Types(member_types)) => Some(
                        MemberTypes::Given(member_types),
                    ),
                    None => Some(MemberTypes::Default(default_member_types_static())),
                };
                Some(
                    NormalizedOrderConfig {
                        member_types,
                        optionality_order: sorted.optionality_order,
                        order: sorted.order,
                    },
                )
            },
        }
    }
}

/// The orders for each construct.
#[derive(Debug, Clone)]
pub struct MemberOrderingOptions {
    /// The order where a construct has none of its own.
    pub default: OrderConfig,
    pub classes: Option<OrderConfig>,
    pub class_expressions: Option<OrderConfig>,
    pub interfaces: Option<OrderConfig>,
    pub type_literals: Option<OrderConfig>,
}

impl Default for MemberOrderingOptions {
    fn default() -> (r: MemberOrderingOptions)
        ensures
            r.classes is None,
            r.class_expressions is None,
            r.interfaces is None,
            r.type_literals is None,
            is_default_order(r.default),
            normalized(r.default) == Some(
                Normalized {
                    member_types: Some(default_groups()),
                    optionality_order: None,
                    order: Order::AsWritten,
                },
            ),
    {
        MemberOrderingOptions {
            default: OrderConfig::default(),
            classes: None,
            class_expressions: None,
            interfaces: None,
            type_literals: None,
        }
    }
}

} // verus!
