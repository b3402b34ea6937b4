//! The layout model: a rule says which shape a value has on the wire.

pub mod traverse;

use vstd::prelude::*;

verus! {

/// The shape of a value on the wire.
#[derive(Debug, PartialEq)]
pub enum BinProtRule {
    /// Unit: one zero byte.
    Unit,
    /// A boolean: one byte.
    Bool,
    /// A character.
    Char,
    /// A byte string with its length before it.
    String,
    /// A 64-bit float.
    Float,
    /// An integer.
    Int,
    /// An integer of 32 bits.
    Int32,
    /// An integer of 64 bits.
    Int64,
    /// An integer of the machine's width.
    NativeInt,
    /// A natural number.
    Nat0,
    /// A value that may be absent.
    Option(Box<BinProtRule>),
    /// Any number of values of one shape, with their count before them.
    List(Box<BinProtRule>),
    /// A fixed row of values.
    Tuple(Vec<BinProtRule>),
    /// A fixed row of named values. The names are not on the wire.
    Record(Vec<RecordField>),
    /// One of several variants, chosen by its index.
    Sum(Vec<Summand>),
    /// One of several polymorphic variants.
    Polyvar(Vec<PolyvarTag>),
    /// The rule of a type declared elsewhere.
    Reference(RuleRef),
    /// A shape that only a decoder from outside knows.
    Custom,
    /// A shape that only a decoder from outside knows, with the module
    /// path under which that decoder is found.
    CustomForPath(String),
}

/// One field of a record.
#[derive(Debug, PartialEq)]
pub struct RecordField {
    /// The name of the field.
    pub field_name: String,
    /// The shape of the field.
    pub field_rule: BinProtRule,
}

/// One variant of a sum.
#[derive(Debug, PartialEq)]
pub struct Summand {
    /// The name of the constructor.
    pub ctor_name: String,
    /// The index of the variant: its place in the declaration, from zero.
    pub index: u32,
    /// The shapes of the constructor's arguments.
    pub ctor_args: Vec<BinProtRule>,
}

/// One tag of a polymorphic variant.
#[derive(Debug, PartialEq)]
pub struct PolyvarTag {
    /// The name of the tag.
    pub polyvar_name: String,
    /// The hash of the name.
    pub hash: u32,
    /// The shapes of the tag's arguments.
    pub polyvar_args: Vec<BinProtRule>,
}

/// A reference to the rule of another type.
#[derive(Debug, PartialEq)]
pub enum RuleRef {
    /// The name of a type whose rule is not at hand.
    Unresolved(String),
    /// The rule referred to, with the module that declares the type.
    Resolved(ResolvedRef),
}

/// A reference together with the rule that it stands for.
#[derive(Debug, PartialEq)]
pub struct ResolvedRef {
    /// The path of the module that declares the type.
    pub source_module_path: String,
    /// The rule referred to.
    pub ref_rule: Box<BinProtRule>,
}

/// The mathematical content of a [`BinProtRule`].
pub enum RuleView {
    Unit,
    Bool,
    Char,
    String,
    Float,
    Int,
    Int32,
    Int64,
    NativeInt,
    Nat0,
    Option(Box<RuleView>),
    List(Box<RuleView>),
    Tuple(Seq<RuleView>),
    Record(Seq<FieldView>),
    Sum(Seq<SummandView>),
    Polyvar(Seq<TagView>),
    Unresolved(Seq<char>),
    Resolved { path: Seq<char>, rule: Box<RuleView> },
    Custom,
    CustomForPath(Seq<char>),
}

/// The mathematical content of a [`RecordField`].
pub struct FieldView {
    pub name: Seq<char>,
    pub rule: RuleView,
}

/// The mathematical content of a [`Summand`].
pub struct SummandView {
    pub name: Seq<char>,
    pub index: nat,
    pub args: Seq<RuleView>,
}

/// The mathematical content of a [`PolyvarTag`].
pub struct TagView {
    pub name: Seq<char>,
    pub hash: nat,
    pub args: Seq<RuleView>,
}

/// The content of `rule`.
pub open spec fn rule_view(rule: BinProtRule) -> RuleView
    decreases rule, 1nat,
{
    match rule {
        BinProtRule::Unit => RuleView::Unit,
        BinProtRule::Bool => RuleView::Bool,
        BinProtRule::Char => RuleView::Char,
        BinProtRule::String => RuleView::String,
        BinProtRule::Float => RuleView::Float,
        BinProtRule::Int => RuleView::Int,
        BinProtRule::Int32 => RuleView::Int32,
        BinProtRule::Int64 => RuleView::Int64,
        BinProtRule::NativeInt => RuleView::NativeInt,
        BinProtRule::Nat0 => RuleView::Nat0,
        BinProtRule::Option(r) => RuleView::Option(Box::new(rule_view(*r))),
        BinProtRule::List(r) => RuleView::List(Box::new(rule_view(*r))),
        BinProtRule::Tuple(rules) => RuleView::Tuple(rule_views(rules@)),
        BinProtRule::Record(fields) => RuleView::Record(field_views(fields@)),
        BinProtRule::Sum(summands) => RuleView::Sum(summand_views(summands@)),
        BinProtRule::Polyvar(tags) => RuleView::Polyvar(tag_views(tags@)),
        BinProtRule::Reference(RuleRef::Unresolved(name)) => RuleView::Unresolved(name@),
        BinProtRule::Reference(RuleRef::Resolved(r)) => RuleView::Resolved {
            path: r.source_module_path@,
            rule: Box::new(rule_view(*r.ref_rule)),
        },
        BinProtRule::Custom => RuleView::Custom,
        BinProtRule::CustomForPath(path) => RuleView::CustomForPath(path@),
    }
}

/// The contents of the rules of `rules`, in order.
pub open spec fn rule_views(rules: Seq<BinProtRule>) -> Seq<RuleView>
    decreases rules, 0nat,
{
    Seq::new(
        rules.len(),
        |i: int|
            if 0 <= i < rules.len() {
                rule_view(rules[i])
            } else {
                arbitrary()
            },
    )
}

/// The content of `field`.
pub open spec fn field_view(field: RecordField) -> FieldView
    decreases field, 1nat,
{
    FieldView { name: field.field_name@, rule: rule_view(field.field_rule) }
}

/// The contents of the fields of `fields`, in order.
pub open spec fn field_views(fields: Seq<RecordField>) -> Seq<FieldView>
    decreases fields, 0nat,
{
    Seq::new(
        fields.len(),
        |i: int|
            if 0 <= i < fields.len() {
                field_view(fields[i])
            } else {
                arbitrary()
            },
    )
}

/// The content of `summand`.
pub open spec fn summand_view(summand: Summand) -> SummandView
    decreases summand, 1nat,
{
    SummandView {
        name: summand.ctor_name@,
        index: summand.index as nat,
        args: rule_views(summand.ctor_args@),
    }
}

/// The contents of the variants of `summands`, in order.
pub open spec fn summand_views(summands: Seq<Summand>) -> Seq<SummandView>
    decreases summands, 0nat,
{
    Seq::new(
        summands.len(),
        |i: int|
            if 0 <= i < summands.len() {
                summand_view(summands[i])
            } else {
                arbitrary()
            },
    )
}

/// The content of `tag`.
pub open spec fn tag_view(tag: PolyvarTag) -> TagView
    decreases tag, 1nat,
{
    TagView {
        name: tag.polyvar_name@,
        hash: tag.hash as nat,
        args: rule_views(tag.polyvar_args@),
    }
}

/// The contents of the tags of `tags`, in order.
pub open spec fn tag_views(tags: Seq<PolyvarTag>) -> Seq<TagView>
    decreases tags, 0nat,
{
    Seq::new(
        tags.len(),
        |i: int|
            if 0 <= i < tags.len() {
                tag_view(tags[i])
            } else {
                arbitrary()
            },
    )
}

impl View for BinProtRule {
    type V = RuleView;

    open spec fn view(&self) -> RuleView {
        rule_view(*self)
    }
}

impl View for RecordField {
    type V = FieldView;

    open spec fn view(&self) -> FieldView {
        field_view(*self)
    }
}

impl View for Summand {
    type V = SummandView;

    open spec fn view(&self) -> SummandView {
        summand_view(*self)
    }
}

impl View for PolyvarTag {
    type V = TagView;

    open spec fn view(&self) -> TagView {
        tag_view(*self)
    }
}

/// A copy of each rule of `rules`.
pub fn clone_rules(rules: &Vec<BinProtRule>) -> (copy: Vec<BinProtRule>)
    ensures
        rule_views(copy@) == rule_views(rules@),
    decreases rules, 0nat,
{
    let mut copy: Vec<BinProtRule> = Vec::new();
    let n: usize = rules.len();
    let mut i: usize = 0;
    while i < n
        invariant
            i <= n,
            n == rules.len(),
            copy.len() == i,
            forall|j: int| 0 <= j < i ==> rule_view(#[trigger] copy@[j]) == rule_view(rules@[j]),
        decreases n - i,
    {
        let item = rules[i].clone();
        copy.push(item);
        i = i + 1;
    }
    assert(rule_views(copy@) =~= rule_views(rules@));
    copy
}

impl Clone for BinProtRule {
    fn clone(&self) -> (copy: Self)
        ensures
            copy@ == self@,
        decreases self, 1nat,
    {
        match self {
            BinProtRule::Unit => BinProtRule::Unit,
            BinProtRule::Bool => BinProtRule::Bool,
            BinProtRule::Char => BinProtRule::Char,
            BinProtRule::String => BinProtRule::String,
            BinProtRule::Float => BinProtRule::Float,
            BinProtRule::Int => BinProtRule::Int,
            BinProtRule::Int32 => BinProtRule::Int32,
            BinProtRule::Int64 => BinProtRule::Int64,
            BinProtRule::NativeInt => BinProtRule::NativeInt,
            BinProtRule::Nat0 => BinProtRule::Nat0,
            BinProtRule::Option(r) => {
                let inner: &BinProtRule = &**r;
                BinProtRule::Option(Box::new(inner.clone()))
            },
            BinProtRule::List(r) => {
                let inner: &BinProtRule = &**r;
                BinProtRule::List(Box::new(inner.clone()))
            },
            BinProtRule::Tuple(rules) => BinProtRule::Tuple(clone_rules(rules)),
            BinProtRule::Record(fields) => {
                let mut copy: Vec<RecordField> = Vec::new();
                let n: usize = fields.len();
                let mut i: usize = 0;
                while i < n
                    invariant
                        i <= n,
                        n == fields.len(),
                        copy.len() == i,
                        *self == BinProtRule::Record(*fields),
                        forall|j: int|
                            0 <= j < i ==> field_view(#[trigger] copy@[j]) == field_view(
                                fields@[j],
                            ),
                    decreases n - i,
                {
                    let field: &RecordField = &fields[i];
                    assert(decreases_to!(self => self->Record_0));
                    assert(decreases_to!(fields => fields[i as int]));
                    copy.push(
                        RecordField {
                            field_name: field.field_name.clone(),
                            field_rule: field.field_rule.clone(),
                        },
                    );
                    i = i + 1;
                }
                assert(field_views(copy@) =~= field_views(fields@));
                BinProtRule::Record(copy)
            },
            BinProtRule::Sum(summands) => {
                let mut copy: Vec<Summand> = Vec::new();
                let n: usize = summands.len();
                let mut i: usize = 0;
                while i < n
                    invariant
                        i <= n,
                        n == summands.len(),
                        copy.len() == i,
                        *self == BinProtRule::Sum(*summands),
                        forall|j: int|
                            0 <= j < i ==> summand_view(#[trigger] copy@[j]) == summand_view(
                                summands@[j],
                            ),
                    decreases n - i,
                {
                    let summand: &Summand = &summands[i];
                    assert(decreases_to!(self => self->Sum_0));
                    assert(decreases_to!(summands => summands[i as int]));
                    copy.push(
                        Summand {
                            ctor_name: summand.ctor_name.clone(),
                            index: summand.index,
                            ctor_args: clone_rules(&summand.ctor_args),
                        },
                    );
                    i = i + 1;
                }
                assert(summand_views(copy@) =~= summand_views(summands@));
                BinProtRule::Sum(copy)
            },
            BinProtRule::Polyvar(tags) => {
                let mut copy: Vec<PolyvarTag> = Vec::new();
                let n: usize = tags.len();
                let mut i: usize = 0;
                while i < n
                    invariant
                        i <= n,
                        n == tags.len(),
                        copy.len() == i,
                        *self == BinProtRule::Polyvar(*tags),
                        forall|j: int|
                            0 <= j < i ==> tag_view(#[trigger] copy@[j]) == tag_view(tags@[j]),
                    decreases n - i,
                {
                    let tag: &PolyvarTag = &tags[i];
                    assert(decreases_to!(self => self->Polyvar_0));
                    assert(decreases_to!(tags => tags[i as int]));
                    copy.push(
                        PolyvarTag {
                            polyvar_name: tag.polyvar_name.clone(),
                            hash: tag.hash,
                            polyvar_args: clone_rules(&tag.polyvar_args),
                        },
                    );
                    i = i + 1;
                }
                assert(tag_views(copy@) =~= tag_views(tags@));
                BinProtRule::Polyvar(copy)
            },
            BinProtRule::Reference(RuleRef::Unresolved(name)) => BinProtRule::Reference(
                RuleRef::Unresolved(name.clone()),
            ),
            BinProtRule::Reference(RuleRef::Resolved(r)) => {
                let inner: &BinProtRule = &*r.ref_rule;
                BinProtRule::Reference(
                    RuleRef::Resolved(
                        ResolvedRef {
                            source_module_path: r.source_module_path.clone(),
                            ref_rule: Box::new(inner.clone()),
                        },
                    ),
                )
            },
            BinProtRule::Custom => BinProtRule::Custom,
            BinProtRule::CustomForPath(path) => BinProtRule::CustomForPath(path.clone()),
        }
    }
}

} // verus!
