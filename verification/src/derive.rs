//! What a derived rollback registration consists of.
//!
//! A type says how it is rolled back in `#[rollback(...)]` attributes:
//!
//! - a strategy, exactly one of which is required: `copy`, `clone` or `reflect`;
//! - a kind, a mutable component unless told otherwise: `resource` or `immutable`;
//! - extras: `marker` to track entities that have the component, `checksum` to have a checksum of
//!   the type.
//!
//! [`derive_rollback_impl`] takes the definition of a type as Rust source,
//! [`derive_from_definition`] takes it as `syn` has read it, and both give the registration calls
//! that its attributes ask for. [`derive_from_attributes`] works them out.

use crate::snapshot::by_name::same_str;
use vstd::prelude::*;

verus! {

/// How the values of a type are put into snapshots.
#[derive(Debug, Clone, Copy, PartialEq, Eq, Structural)]
pub enum Strategy {
    Copy,
    Clone,
    Reflect,
}

/// What the attributes of a type ask for.
#[derive(Debug, Clone, Copy, PartialEq, Eq, Structural)]
pub struct RollbackAttrs {
    pub strategy: Option<Strategy>,
    pub resource: bool,
    pub immutable: bool,
    pub marker: bool,
    pub checksum: bool,
}

/// Why an item of an attribute is refused.
#[derive(Debug, Clone, Copy, PartialEq, Eq, Structural)]
pub enum ItemError {
    /// There is no such item.
    Unknown,
    /// It names a strategy after another one.
    SecondStrategy,
}

impl RollbackAttrs {
    /// Nothing asked for.
    pub open spec fn none() -> Self {
        RollbackAttrs {
            strategy: None,
            resource: false,
            immutable: false,
            marker: false,
            checksum: false,
        }
    }
}

impl Default for RollbackAttrs {
    fn default() -> (attrs: Self)
        ensures
            attrs == RollbackAttrs::none(),
    {
        RollbackAttrs {
            strategy: None,
            resource: false,
            immutable: false,
            marker: false,
            checksum: false,
        }
    }
}

/// The strategy that an item names.
pub open spec fn named_strategy(item: Seq<char>) -> Option<Strategy> {
    if item == "copy"@ {
        Some(Strategy::Copy)
    } else if item == "clone"@ {
        Some(Strategy::Clone)
    } else if item == "reflect"@ {
        Some(Strategy::Reflect)
    } else {
        None
    }
}

/// Whether an item is one of those that switch something on.
pub open spec fn is_switch(item: Seq<char>) -> bool {
    item == "resource"@ || item == "immutable"@ || item == "marker"@ || item == "checksum"@
}

/// What is asked for once an item has been read. An item is a single identifier, or `None` if it is
/// any other path.
pub open spec fn with_item(attrs: RollbackAttrs, item: Option<Seq<char>>) -> Result<
    RollbackAttrs,
    ItemError,
> {
    match item {
        Some(item) => match named_strategy(item) {
            Some(strategy) => if attrs.strategy is Some && attrs.strategy != Some(strategy) {
                Err(ItemError::SecondStrategy)
            } else {
                Ok(RollbackAttrs { strategy: Some(strategy), ..attrs })
            },
            None => if is_switch(item) {
                Ok(
                    RollbackAttrs {
                        resource: attrs.resource || item == "resource"@,
                        immutable: attrs.immutable || item == "immutable"@,
                        marker: attrs.marker || item == "marker"@,
                        checksum: attrs.checksum || item == "checksum"@,
                        ..attrs
                    },
                )
            } else {
                Err(ItemError::Unknown)
            },
        },
        None => Err(ItemError::Unknown),
    }
}

/// The items are pairwise different words.
proof fn lemma_items_differ()
    ensures
        "resource"@ != "immutable"@,
        "resource"@ != "marker"@,
        "resource"@ != "checksum"@,
        "immutable"@ != "marker"@,
        "immutable"@ != "checksum"@,
        "marker"@ != "checksum"@,
        "copy"@ != "clone"@,
        "copy"@ != "reflect"@,
        "clone"@ != "reflect"@,
        !is_switch("copy"@),
        !is_switch("clone"@),
        !is_switch("reflect"@),
{
    reveal_strlit("copy");
    reveal_strlit("clone");
    reveal_strlit("reflect");
    reveal_strlit("resource");
    reveal_strlit("immutable");
    reveal_strlit("marker");
    reveal_strlit("checksum");
    assert("clone"@[1] == 'l');
    assert("resource"@[2] == 's');
    assert("reflect"@[2] == 'f');
    assert("marker"@[0] == 'm');
    assert("checksum"@[1] == 'h');
    assert("immutable"@[0] == 'i');
}

impl RollbackAttrs {
    /// Reads one item of an attribute.
    pub fn parse(&mut self, item: Option<&str>) -> (result: Result<(), ItemError>)
        ensures
            match with_item(
                *old(self),
                match item {
                    Some(item) => Some(item@),
                    None => None,
                },
            ) {
                Ok(attrs) => result is Ok && *final(self) == attrs,
                Err(error) => result == Err::<(), ItemError>(error) && *final(self) == *old(self),
            },
    {
        let item = match item {
            Some(item) => item,
            None => return Err(ItemError::Unknown),
        };
        proof {
            lemma_items_differ();
        }
        if same_str(item, "copy") {
            self.choose_strategy(Strategy::Copy)
        } else if same_str(item, "clone") {
            self.choose_strategy(Strategy::Clone)
        } else if same_str(item, "reflect") {
            self.choose_strategy(Strategy::Reflect)
        } else if same_str(item, "resource") {
            self.resource = true;
            Ok(())
        } else if same_str(item, "immutable") {
            self.immutable = true;
            Ok(())
        } else if same_str(item, "marker") {
            self.marker = true;
            Ok(())
        } else if same_str(item, "checksum") {
            self.checksum = true;
            Ok(())
        } else {
            Err(ItemError::Unknown)
        }
    }

    /// Takes a strategy, unless another one was taken before.
    fn choose_strategy(&mut self, strategy: Strategy) -> (result: Result<(), ItemError>)
        ensures
            if old(self).strategy is Some && old(self).strategy != Some(strategy) {
                result == Err::<(), ItemError>(ItemError::SecondStrategy) && *final(self) == *old(
                    self,
                )
            } else {
                result is Ok && *final(self) == (RollbackAttrs {
                    strategy: Some(strategy),
                    ..*old(self)
                })
            },
    {
        if let Some(chosen) = self.strategy {
            if chosen != strategy {
                return Err(ItemError::SecondStrategy);
            }
        }
        self.strategy = Some(strategy);
        Ok(())
    }
}

/// `syn::Error`.
#[verifier::external_type_specification]
#[verifier::external_body]
pub struct ExSynError(syn::Error);

/// The text of an optional string.
pub open spec fn text(string: Option<String>) -> Option<Seq<char>> {
    match string {
        Some(string) => Some(string@),
        None => None,
    }
}

/// `syn::DeriveInput`.
#[verifier::external_type_specification]
#[verifier::external_body]
pub struct ExDeriveInput(syn::DeriveInput);

/// The items of an attribute's arguments.
#[derive(Debug)]
pub struct AttributeItems {
    /// The items, each a single identifier, or `None` if it is any other path. Where the arguments
    /// are malformed, those before the fault.
    pub items: Vec<Option<String>>,
    /// Whether the arguments are items and commas throughout.
    pub complete: bool,
}

impl View for AttributeItems {
    type V = (Seq<Option<Seq<char>>>, bool);

    open spec fn view(&self) -> (Seq<Option<Seq<char>>>, bool) {
        (self.items@.map_values(|item: Option<String>| text(item)), self.complete)
    }
}

/// An attribute of a type definition.
#[derive(Debug)]
pub struct AttributeSource {
    /// Its path, if that is a single identifier.
    pub name: Option<String>,
    /// What stands between its brackets, if it has any.
    pub arguments: Option<AttributeItems>,
}

impl View for AttributeSource {
    type V = (Option<Seq<char>>, Option<(Seq<Option<Seq<char>>>, bool)>);

    open spec fn view(&self) -> (Option<Seq<char>>, Option<(Seq<Option<Seq<char>>>, bool)>) {
        (
            text(self.name),
            match self.arguments {
                Some(arguments) => Some(arguments@),
                None => None,
            },
        )
    }
}

/// Whether `syn` may read this type definition from some Rust source, or, for `None`, may find that
/// the source holds no type definition.
pub uninterp spec fn may_read(source: Seq<char>, definition: Option<syn::DeriveInput>) -> bool;

/// The attributes that `syn` tells of a type definition: the name of each, and the items of its
/// arguments.
pub uninterp spec fn attributes_read(definition: syn::DeriveInput) -> Seq<
    (Option<Seq<char>>, Option<(Seq<Option<Seq<char>>>, bool)>),
>;

/// `syn::parse_str` for a `syn::DeriveInput`: the type definition that some Rust source holds, or an
/// error if it holds none.
///
/// The contract says that the outcome is one that `syn` may give for this source. Which one it is, is
/// left unsaid: inside a procedural macro `syn` has the compiler cut the source into tokens and
/// elsewhere a lexer of its own, so that the source alone does not fix it. It is read by recursive
/// descent, so source nested deeper than the stack reaches is beyond it.
#[verifier::external_body]
fn parse_definition(source: &str) -> (definition: Result<syn::DeriveInput, syn::Error>)
    ensures
        may_read(
            source@,
            match definition {
                Ok(read) => Some(read),
                Err(_) => None,
            },
        ),
{
    syn::parse_str(source)
}

/// `syn::Attribute::parse_nested_meta`, on each attribute of a type definition that has arguments:
/// the items of these. The parser hands out the items one after another and stops at the first
/// fault. A path that is a single identifier is told by `syn::Path::get_ident`.
///
/// The contract says that the attributes are fixed by the definition, which holds its tokens. What
/// they are is left unsaid.
#[verifier::external_body]
fn attributes_of(definition: &syn::DeriveInput) -> (attributes: Vec<AttributeSource>)
    ensures
        attributes@.map_values(|attribute: AttributeSource| attribute@) == attributes_read(
            *definition,
        ),
{
    let attributes = definition.attrs.iter().map(|attribute| AttributeSource {
        name: attribute.path().get_ident().map(|name| name.to_string()),
        arguments: match attribute.meta {
            syn::Meta::List(_) => {
                let mut items = Vec::new();
                let read = attribute.parse_nested_meta(|item| {
                    Ok(items.push(item.path.get_ident().map(|name| name.to_string())))
                });
                Some(AttributeItems { items, complete: read.is_ok() })
            },
            syn::Meta::Path(_) => None,
            syn::Meta::NameValue(_) => None,
        },
    });
    attributes.collect()
}

/// Why an attribute is refused.
#[derive(Debug, Clone, Copy, PartialEq, Eq, Structural)]
pub enum AttributeError {
    /// Its arguments are no list of items.
    Malformed,
    /// One of its items is refused.
    Item { item: usize, error: ItemError },
}

/// Why a type has no rollback registration.
#[derive(Debug, Clone, Copy, PartialEq, Eq, Structural)]
pub enum DeriveError {
    /// The source is no type definition.
    InvalidDefinition,
    /// The attribute in this place is refused.
    InvalidAttribute { attribute: usize, error: AttributeError },
    /// The attributes name no strategy.
    NoStrategy,
    /// The attributes ask for a resource and for an immutable component.
    ResourceAndImmutable,
    /// The attributes ask for a resource and for entity tracking.
    ResourceAndMarker,
}

/// What is asked for once some items have been read; the place and the fault of the first one that
/// is refused.
pub open spec fn with_items(attrs: RollbackAttrs, items: Seq<Option<Seq<char>>>) -> Result<
    RollbackAttrs,
    (usize, ItemError),
>
    decreases items.len(),
{
    if items.len() == 0 {
        Ok(attrs)
    } else {
        match with_items(attrs, items.drop_last()) {
            Ok(before) => match with_item(before, items.last()) {
                Ok(after) => Ok(after),
                Err(error) => Err(((items.len() - 1) as usize, error)),
            },
            Err(error) => Err(error),
        }
    }
}

/// What is asked for once an attribute has been read.
pub open spec fn with_attribute(
    attrs: RollbackAttrs,
    items: (Seq<Option<Seq<char>>>, bool),
) -> Result<RollbackAttrs, AttributeError> {
    match with_items(attrs, items.0) {
        Ok(after) => if items.1 {
            Ok(after)
        } else {
            Err(AttributeError::Malformed)
        },
        Err((item, error)) => Err(AttributeError::Item { item, error }),
    }
}

/// What the attributes of a type ask for, all `#[rollback(...)]` ones together; the place and the
/// fault of the first one that is refused.
pub open spec fn with_attributes(
    attributes: Seq<(Option<Seq<char>>, Option<(Seq<Option<Seq<char>>>, bool)>)>,
) -> Result<RollbackAttrs, DeriveError>
    decreases attributes.len(),
{
    if attributes.len() == 0 {
        Ok(RollbackAttrs::none())
    } else {
        match with_attributes(attributes.drop_last()) {
            Ok(before) => {
                let (name, arguments) = attributes.last();
                let attribute = (attributes.len() - 1) as usize;
                if name == Some("rollback"@) {
                    match arguments {
                        Some(arguments) => match with_attribute(before, arguments) {
                            Ok(after) => Ok(after),
                            Err(error) => Err(
                                DeriveError::InvalidAttribute { attribute, error },
                            ),
                        },
                        None => Err(
                            DeriveError::InvalidAttribute {
                                attribute,
                                error: AttributeError::Malformed,
                            },
                        ),
                    }
                } else {
                    Ok(before)
                }
            },
            Err(error) => Err(error),
        }
    }
}

/// The call that registers snapshots of a type.
pub open spec fn snapshot_call(strategy: Strategy, resource: bool, immutable: bool) -> Seq<char> {
    match (strategy, resource, immutable) {
        (Strategy::Copy, true, _) => "rollback_resource_with_copy"@,
        (Strategy::Clone, true, _) => "rollback_resource_with_clone"@,
        (Strategy::Reflect, true, _) => "rollback_resource_with_reflect"@,
        (Strategy::Copy, false, true) => "rollback_immutable_component_with_copy"@,
        (Strategy::Clone, false, true) => "rollback_immutable_component_with_clone"@,
        (Strategy::Reflect, false, true) => "rollback_immutable_component_with_reflect"@,
        (Strategy::Copy, false, false) => "rollback_component_with_copy"@,
        (Strategy::Clone, false, false) => "rollback_component_with_clone"@,
        (Strategy::Reflect, false, false) => "rollback_component_with_reflect"@,
    }
}

/// The calls that register what the attributes ask for, in their order: entity tracking if it is
/// asked for, then snapshots, then a checksum if it is asked for.
pub open spec fn calls_for(attrs: RollbackAttrs) -> Result<Seq<Seq<char>>, DeriveError> {
    match attrs.strategy {
        None => Err(DeriveError::NoStrategy),
        Some(strategy) => if attrs.resource && attrs.immutable {
            Err(DeriveError::ResourceAndImmutable)
        } else if attrs.resource && attrs.marker {
            Err(DeriveError::ResourceAndMarker)
        } else {
            let tracking = if attrs.marker {
                seq!["rollback_entities_with"@]
            } else {
                seq![]
            };
            let checksum = if !attrs.checksum {
                seq![]
            } else if attrs.resource {
                seq!["checksum_resource_with_hash"@]
            } else {
                seq!["checksum_component_with_hash"@]
            };
            Ok(
                tracking + seq![snapshot_call(strategy, attrs.resource, attrs.immutable)]
                    + checksum,
            )
        },
    }
}

/// The calls that register a type with the given attributes.
pub open spec fn calls_of(
    attributes: Seq<(Option<Seq<char>>, Option<(Seq<Option<Seq<char>>>, bool)>)>,
) -> Result<Seq<Seq<char>>, DeriveError> {
    match with_attributes(attributes) {
        Ok(attrs) => calls_for(attrs),
        Err(error) => Err(error),
    }
}

/// The texts of a list of calls, or the error in its place.
pub open spec fn call_texts(result: Result<Vec<&'static str>, DeriveError>) -> Result<
    Seq<Seq<char>>,
    DeriveError,
> {
    match result {
        Ok(calls) => Ok(calls@.map_values(|call: &'static str| call@)),
        Err(error) => Err(error),
    }
}

/// Reads the items of an attribute.
pub fn read_items(attrs: RollbackAttrs, items: &AttributeItems) -> (result: Result<
    RollbackAttrs,
    AttributeError,
>)
    ensures
        result == with_attribute(attrs, items@),
{
    let mut asked = attrs;
    let ghost texts = items@.0;
    let mut i: usize = 0;
    while i < items.items.len()
        invariant
            i <= items.items@.len(),
            texts == items@.0,
            with_items(attrs, texts.take(i as int)) == Ok::<RollbackAttrs, (usize, ItemError)>(
                asked,
            ),
        decreases items.items@.len() - i,
    {
        let item = match &items.items[i] {
            Some(item) => Some(item.as_str()),
            None => None,
        };
        proof {
            assert(texts.take(i + 1).drop_last() =~= texts.take(i as int));
        }
        if let Err(error) = asked.parse(item) {
            proof {
                lemma_first_fault(attrs, texts, i + 1);
            }
            return Err(AttributeError::Item { item: i, error });
        }
        i += 1;
    }
    assert(texts.take(texts.len() as int) =~= texts);
    if items.complete {
        Ok(asked)
    } else {
        Err(AttributeError::Malformed)
    }
}

/// A fault among the first items is the fault of all.
proof fn lemma_first_fault(attrs: RollbackAttrs, items: Seq<Option<Seq<char>>>, count: int)
    requires
        0 <= count <= items.len(),
        with_items(attrs, items.take(count)) is Err,
    ensures
        with_items(attrs, items) == with_items(attrs, items.take(count)),
    decreases items.len() - count,
{
    if count == items.len() {
        assert(items.take(count) =~= items);
    } else {
        assert(items.take(count + 1).drop_last() =~= items.take(count));
        lemma_first_fault(attrs, items, count + 1);
    }
}

/// The calls that register what is asked for.
pub fn registration_calls(attrs: RollbackAttrs) -> (result: Result<Vec<&'static str>, DeriveError>)
    ensures
        call_texts(result) == calls_for(attrs),
{
    let strategy = match attrs.strategy {
        Some(strategy) => strategy,
        None => return Err(DeriveError::NoStrategy),
    };
    if attrs.resource && attrs.immutable {
        return Err(DeriveError::ResourceAndImmutable);
    }
    if attrs.resource && attrs.marker {
        return Err(DeriveError::ResourceAndMarker);
    }
    let mut calls: Vec<&'static str> = Vec::new();
    if attrs.marker {
        calls.push("rollback_entities_with");
    }
    let call = match (strategy, attrs.resource, attrs.immutable) {
        (Strategy::Copy, true, _) => "rollback_resource_with_copy",
        (Strategy::Clone, true, _) => "rollback_resource_with_clone",
        (Strategy::Reflect, true, _) => "rollback_resource_with_reflect",
        (Strategy::Copy, false, true) => "rollback_immutable_component_with_copy",
        (Strategy::Clone, false, true) => "rollback_immutable_component_with_clone",
        (Strategy::Reflect, false, true) => "rollback_immutable_component_with_reflect",
        (Strategy::Copy, false, false) => "rollback_component_with_copy",
        (Strategy::Clone, false, false) => "rollback_component_with_clone",
        (Strategy::Reflect, false, false) => "rollback_component_with_reflect",
    };
    calls.push(call);
    if attrs.checksum && attrs.resource {
        calls.push("checksum_resource_with_hash");
    } else if attrs.checksum {
        calls.push("checksum_component_with_hash");
    }
    assert(call_texts(Ok(calls))->Ok_0 =~= calls_for(attrs)->Ok_0);
    Ok(calls)
}

/// The calls that register a type with the given attributes.
pub fn derive_from_attributes(attributes: &Vec<AttributeSource>) -> (result: Result<
    Vec<&'static str>,
    DeriveError,
>)
    ensures
        call_texts(result) == calls_of(
            attributes@.map_values(|attribute: AttributeSource| attribute@),
        ),
{
    let mut attrs = RollbackAttrs::default();
    let ghost sources = attributes@.map_values(|attribute: AttributeSource| attribute@);
    let mut i: usize = 0;
    while i < attributes.len()
        invariant
            i <= attributes@.len(),
            sources == attributes@.map_values(|attribute: AttributeSource| attribute@),
            with_attributes(sources.take(i as int)) == Ok::<RollbackAttrs, DeriveError>(attrs),
        decreases attributes@.len() - i,
    {
        let attribute = &attributes[i];
        proof {
            assert(sources.take(i + 1).drop_last() =~= sources.take(i as int));
        }
        let is_rollback = match &attribute.name {
            Some(name) => same_str(name.as_str(), "rollback"),
            None => false,
        };
        if is_rollback {
            let read = match &attribute.arguments {
                Some(arguments) => read_items(attrs, arguments),
                None => Err(AttributeError::Malformed),
            };
            match read {
                Ok(after) => {
                    attrs = after;
                },
                Err(error) => {
                    proof {
                        lemma_first_refusal(sources, i + 1);
                    }
                    return Err(DeriveError::InvalidAttribute { attribute: i, error });
                },
            }
        }
        i += 1;
    }
    assert(sources.take(sources.len() as int) =~= sources);
    registration_calls(attrs)
}

/// A refusal of one of the first attributes is the refusal of all.
proof fn lemma_first_refusal(
    attributes: Seq<(Option<Seq<char>>, Option<(Seq<Option<Seq<char>>>, bool)>)>,
    count: int,
)
    requires
        0 <= count <= attributes.len(),
        with_attributes(attributes.take(count)) is Err,
    ensures
        with_attributes(attributes) == with_attributes(attributes.take(count)),
    decreases attributes.len() - count,
{
    if count == attributes.len() {
        assert(attributes.take(count) =~= attributes);
    } else {
        assert(attributes.take(count + 1).drop_last() =~= attributes.take(count));
        lemma_first_refusal(attributes, count + 1);
    }
}

/// The calls that register the type with this definition.
pub fn derive_from_definition(definition: &syn::DeriveInput) -> (result: Result<
    Vec<&'static str>,
    DeriveError,
>)
    ensures
        call_texts(result) == calls_of(attributes_read(*definition)),
{
    derive_from_attributes(&attributes_of(definition))
}

/// The calls that register the type with the definition that was read, if one was.
pub open spec fn calls_of_read(definition: Option<syn::DeriveInput>) -> Result<
    Seq<Seq<char>>,
    DeriveError,
> {
    match definition {
        Some(definition) => calls_of(attributes_read(definition)),
        None => Err(DeriveError::InvalidDefinition),
    }
}

/// The calls that register the type that `source` defines.
///
/// Its attributes are those of a definition that `syn` may read from this source. The source is
/// refused as no type definition only where `syn` may find it to be none.
pub fn derive_rollback_impl(source: &str) -> (result: Result<Vec<&'static str>, DeriveError>)
    ensures
        exists|definition: Option<syn::DeriveInput>| #[trigger]
            may_read(source@, definition) && call_texts(result) == calls_of_read(definition),
{
    match parse_definition(source) {
        Ok(definition) => {
            let result = derive_from_definition(&definition);
            assert(may_read(source@, Some(definition)));
            result
        },
        Err(_) => Err(DeriveError::InvalidDefinition),
    }
}

/// What a refusal is answered, where the answer is not that of the Rust parser.
pub open spec fn message_of(error: DeriveError) -> Option<Seq<char>> {
    match error {
        DeriveError::InvalidDefinition => None,
        DeriveError::InvalidAttribute { error, .. } => match error {
            AttributeError::Malformed => None,
            AttributeError::Item { error, .. } => match error {
                ItemError::Unknown => Some("unknown rollback attribute"@),
                ItemError::SecondStrategy => Some("#[rollback(...)] takes exactly one strategy"@),
            },
        },
        DeriveError::NoStrategy => Some(
            "#[rollback(...)] requires a strategy: copy, clone, or reflect"@,
        ),
        DeriveError::ResourceAndImmutable => Some(
            "#[rollback(...)] cannot combine `resource` and `immutable`"@,
        ),
        DeriveError::ResourceAndMarker => Some(
            "#[rollback(...)] cannot combine `resource` and `marker` (entity tracking is for components only)"@,
        ),
    }
}

impl DeriveError {
    /// What to tell the author of the type. `None` where the Rust parser found the fault and has
    /// its own words for it.
    pub fn message(&self) -> (message: Option<&'static str>)
        ensures
            match message {
                Some(message) => message_of(*self) == Some(message@),
                None => message_of(*self) is None,
            },
    {
        match *self {
            DeriveError::InvalidDefinition => None,
            DeriveError::InvalidAttribute { error, .. } => match error {
                AttributeError::Malformed => None,
                AttributeError::Item { error, .. } => match error {
                    ItemError::Unknown => Some("unknown rollback attribute"),
                    ItemError::SecondStrategy => Some(
                        "#[rollback(...)] takes exactly one strategy",
                    ),
                },
            },
            DeriveError::NoStrategy => Some(
                "#[rollback(...)] requires a strategy: copy, clone, or reflect",
            ),
            DeriveError::ResourceAndImmutable => Some(
                "#[rollback(...)] cannot combine `resource` and `immutable`",
            ),
            DeriveError::ResourceAndMarker => Some(
                "#[rollback(...)] cannot combine `resource` and `marker` (entity tracking is for components only)",
            ),
        }
    }
}

/// Whether types are registered on their own account when the app is complete: unless the app asked
/// not to, and if there is a registry to find them in.
pub fn auto_registers(skip_requested: bool, has_registry: bool) -> (registers: bool)
    ensures
        registers == (!skip_requested && has_registry),
{
    if skip_requested {
        return false;
    }
    has_registry
}

/// Some item names the strategy.
pub open spec fn names_strategy(items: Seq<Option<Seq<char>>>, strategy: Strategy) -> bool {
    exists|i: int|
        0 <= i < items.len() && #[trigger] items[i] is Some && named_strategy(items[i]->0) == Some(
            strategy,
        )
}

/// Items that are accepted mean what they say: a strategy is taken exactly if an item names it, and
/// a switch is on exactly if it is among the items.
pub proof fn law_items_mean_what_they_say(items: Seq<Option<Seq<char>>>, attrs: RollbackAttrs)
    requires
        with_items(RollbackAttrs::none(), items) == Ok::<RollbackAttrs, (usize, ItemError)>(attrs),
    ensures
        forall|strategy: Strategy|
            attrs.strategy == Some(strategy) <==> #[trigger] names_strategy(items, strategy),
        attrs.resource <==> items.contains(Some("resource"@)),
        attrs.immutable <==> items.contains(Some("immutable"@)),
        attrs.marker <==> items.contains(Some("marker"@)),
        attrs.checksum <==> items.contains(Some("checksum"@)),
    decreases items.len(),
{
    lemma_items_differ();
    if items.len() > 0 {
        let rest = items.drop_last();
        let last = items.last();
        let before = with_items(RollbackAttrs::none(), rest)->Ok_0;
        law_items_mean_what_they_say(rest, before);
        assert forall|item: Option<Seq<char>>| #[trigger]
            items.contains(item) <==> rest.contains(item) || item == last by {
            broadcast use vstd::seq_lib::group_seq_properties;

        }
        assert forall|strategy: Strategy|
            attrs.strategy == Some(strategy) <==> #[trigger] names_strategy(items, strategy) by {
            if names_strategy(rest, strategy) {
                let i = choose|i: int|
                    0 <= i < rest.len() && #[trigger] rest[i] is Some && named_strategy(rest[i]->0)
                        == Some(strategy);
                assert(items[i] == rest[i]);
            }
            if names_strategy(items, strategy) {
                let i = choose|i: int|
                    0 <= i < items.len() && #[trigger] items[i] is Some && named_strategy(
                        items[i]->0,
                    ) == Some(strategy);
                if i < rest.len() {
                    assert(rest[i] == items[i]);
                }
            }
        }
    }
}

/// Every item is one that can stand in an attribute.
pub open spec fn all_known(items: Seq<Option<Seq<char>>>) -> bool {
    forall|i: int|
        0 <= i < items.len() ==> #[trigger] items[i] is Some && (named_strategy(items[i]->0) is Some
            || is_switch(items[i]->0))
}

/// No two items name different strategies.
pub open spec fn strategies_agree(items: Seq<Option<Seq<char>>>) -> bool {
    forall|first: Strategy, second: Strategy| #[trigger]
        names_strategy(items, first) && #[trigger] names_strategy(items, second) ==> first == second
}

/// Items are accepted if all of them are known and no two of them name different strategies, and
/// refused otherwise.
pub proof fn law_items_are_accepted(items: Seq<Option<Seq<char>>>)
    ensures
        with_items(RollbackAttrs::none(), items) is Ok <==> all_known(items) && strategies_agree(
            items,
        ),
    decreases items.len(),
{
    lemma_items_differ();
    if items.len() > 0 {
        let rest = items.drop_last();
        let last = items.last();
        law_items_are_accepted(rest);
        assert(forall|i: int| 0 <= i < rest.len() ==> #[trigger] items[i] == rest[i]);
        assert forall|strategy: Strategy| #[trigger] names_strategy(rest, strategy) implies
            names_strategy(items, strategy) by {}
        if with_items(RollbackAttrs::none(), items) is Ok {
            let attrs = with_items(RollbackAttrs::none(), items)->Ok_0;
            law_items_mean_what_they_say(items, attrs);
        } else if all_known(items) && strategies_agree(items) {
            let before = with_items(RollbackAttrs::none(), rest)->Ok_0;
            law_items_mean_what_they_say(rest, before);
            if let Some(strategy) = named_strategy(last->0) {
                assert(names_strategy(items, strategy));
                if let Some(chosen) = before.strategy {
                    assert(names_strategy(rest, chosen));
                }
            }
        }
    }
}

/// The order of items, and how often they occur, does not matter.
pub proof fn law_item_order_does_not_matter(
    first: Seq<Option<Seq<char>>>,
    second: Seq<Option<Seq<char>>>,
)
    requires
        first.to_set() == second.to_set(),
        with_items(RollbackAttrs::none(), first) is Ok,
    ensures
        with_items(RollbackAttrs::none(), second) == with_items(RollbackAttrs::none(), first),
{
    lemma_same_items(first, second);
    lemma_same_items(second, first);
    law_items_are_accepted(first);
    law_items_are_accepted(second);
    let one = with_items(RollbackAttrs::none(), first)->Ok_0;
    assert forall|i: int| 0 <= i < second.len() implies #[trigger] second[i] is Some && (
    named_strategy(second[i]->0) is Some || is_switch(second[i]->0)) by {
        assert(second.to_set().contains(second[i]));
    }
    let other = with_items(RollbackAttrs::none(), second)->Ok_0;
    law_items_mean_what_they_say(first, one);
    law_items_mean_what_they_say(second, other);
    if let Some(strategy) = one.strategy {
        assert(names_strategy(first, strategy));
    }
    if let Some(strategy) = other.strategy {
        assert(names_strategy(second, strategy));
    }
    assert(forall|item: Option<Seq<char>>| #[trigger]
        second.contains(item) <==> second.to_set().contains(item));
}

/// Whatever is among some items is named by others that hold the same.
proof fn lemma_same_items(first: Seq<Option<Seq<char>>>, second: Seq<Option<Seq<char>>>)
    requires
        first.to_set() == second.to_set(),
    ensures
        forall|strategy: Strategy| #[trigger]
            names_strategy(first, strategy) ==> names_strategy(second, strategy),
{
    assert forall|strategy: Strategy| #[trigger] names_strategy(first, strategy) implies
        names_strategy(second, strategy) by {
        let i = choose|i: int|
            0 <= i < first.len() && #[trigger] first[i] is Some && named_strategy(first[i]->0)
                == Some(strategy);
        assert(first.to_set().contains(first[i]));
    }
}

/// A type is registered exactly if a strategy is asked for, and a resource is neither immutable nor
/// tracked by entity.
pub proof fn law_registered_or_refused(attrs: RollbackAttrs)
    ensures
        calls_for(attrs) is Ok <==> attrs.strategy is Some && !(attrs.resource && (attrs.immutable
            || attrs.marker)),
{
}

/// Several attributes come to the same as one with all their items: what is accepted in turn is
/// accepted together and asks for the same, and what is refused in turn is refused together, for the
/// same fault and in its place.
pub proof fn law_attributes_accumulate(
    attrs: RollbackAttrs,
    first: Seq<Option<Seq<char>>>,
    second: Seq<Option<Seq<char>>>,
)
    ensures
        match with_items(attrs, first) {
            Ok(between) => match with_items(between, second) {
                Ok(after) => with_items(attrs, first + second) == Ok::<
                    RollbackAttrs,
                    (usize, ItemError),
                >(after),
                Err((item, error)) => with_items(attrs, first + second) matches Err((place, fault))
                    && fault == error && (first.len() + second.len() <= usize::MAX ==> place
                    == first.len() + item),
            },
            Err(refusal) => with_items(attrs, first + second) == Err::<
                RollbackAttrs,
                (usize, ItemError),
            >(refusal),
        },
    decreases second.len(),
{
    if second.len() > 0 {
        assert((first + second).drop_last() =~= first + second.drop_last());
        law_attributes_accumulate(attrs, first, second.drop_last());
    } else {
        assert(first + second =~= first);
    }
}

/// An attribute is a `#[rollback(...)]` one.
pub open spec fn is_rollback(
    attribute: (Option<Seq<char>>, Option<(Seq<Option<Seq<char>>>, bool)>),
) -> bool {
    attribute.0 == Some("rollback"@)
}

/// An attribute has arguments, and they are items and commas throughout.
pub open spec fn has_whole_arguments(
    attribute: (Option<Seq<char>>, Option<(Seq<Option<Seq<char>>>, bool)>),
) -> bool {
    match attribute.1 {
        Some(arguments) => arguments.1,
        None => false,
    }
}

/// All `#[rollback(...)]` attributes have arguments that are items and commas throughout.
pub open spec fn well_written(
    attributes: Seq<(Option<Seq<char>>, Option<(Seq<Option<Seq<char>>>, bool)>)>,
) -> bool {
    forall|i: int|
        0 <= i < attributes.len() && is_rollback(#[trigger] attributes[i]) ==> has_whole_arguments(
            attributes[i],
        )
}

/// The items of all `#[rollback(...)]` attributes, in their order.
pub open spec fn all_items(
    attributes: Seq<(Option<Seq<char>>, Option<(Seq<Option<Seq<char>>>, bool)>)>,
) -> Seq<Option<Seq<char>>>
    decreases attributes.len(),
{
    if attributes.len() == 0 {
        seq![]
    } else {
        let before = all_items(attributes.drop_last());
        match attributes.last().1 {
            Some(arguments) => if is_rollback(attributes.last()) {
                before + arguments.0
            } else {
                before
            },
            None => before,
        }
    }
}

/// All `#[rollback(...)]` attributes together come to the same as one with all their items: they are
/// accepted exactly if they are well written and the items are accepted, and then they ask for what
/// the items ask for. Other attributes count for nothing.
pub proof fn law_attributes_are_one(
    attributes: Seq<(Option<Seq<char>>, Option<(Seq<Option<Seq<char>>>, bool)>)>,
)
    ensures
        with_attributes(attributes) is Ok <==> well_written(attributes) && with_items(
            RollbackAttrs::none(),
            all_items(attributes),
        ) is Ok,
        with_attributes(attributes) matches Ok(attrs) ==> with_items(
            RollbackAttrs::none(),
            all_items(attributes),
        ) == Ok::<RollbackAttrs, (usize, ItemError)>(attrs),
    decreases attributes.len(),
{
    if attributes.len() > 0 {
        let rest = attributes.drop_last();
        let last = attributes.last();
        law_attributes_are_one(rest);
        assert(forall|i: int| 0 <= i < rest.len() ==> #[trigger] attributes[i] == rest[i]);
        assert(attributes[attributes.len() - 1] == last);
        assert(well_written(attributes) <==> well_written(rest) && (is_rollback(last)
            ==> has_whole_arguments(last))) by {
            if well_written(attributes) {
                assert forall|i: int| 0 <= i < rest.len() && is_rollback(
                    #[trigger] rest[i],
                ) implies has_whole_arguments(rest[i]) by {
                    assert(is_rollback(attributes[i]));
                }
            }
        }
        if let Some(arguments) = last.1 {
            law_attributes_accumulate(RollbackAttrs::none(), all_items(rest), arguments.0);
        }
    }
}

/// It does not matter in which order items stand, how often, over how many `#[rollback(...)]`
/// attributes they are spread, and which other attributes stand among these: two lists of attributes
/// with the same items ask for the same and register the type by the same calls, or both are refused.
pub proof fn law_spread_of_items_does_not_matter(
    first: Seq<(Option<Seq<char>>, Option<(Seq<Option<Seq<char>>>, bool)>)>,
    second: Seq<(Option<Seq<char>>, Option<(Seq<Option<Seq<char>>>, bool)>)>,
)
    requires
        well_written(first) <==> well_written(second),
        all_items(first).to_set() == all_items(second).to_set(),
    ensures
        with_attributes(first) is Ok <==> with_attributes(second) is Ok,
        with_attributes(first) is Ok ==> with_attributes(first) == with_attributes(second),
        calls_of(first) is Ok <==> calls_of(second) is Ok,
        calls_of(first) is Ok ==> calls_of(first) == calls_of(second),
{
    law_attributes_are_one(first);
    law_attributes_are_one(second);
    if with_items(RollbackAttrs::none(), all_items(first)) is Ok {
        law_item_order_does_not_matter(all_items(first), all_items(second));
    }
    if with_items(RollbackAttrs::none(), all_items(second)) is Ok {
        law_item_order_does_not_matter(all_items(second), all_items(first));
    }
}

/// An item is one of the words that have a meaning.
pub open spec fn is_known(item: Option<Seq<char>>) -> bool {
    ||| item == Some("copy"@)
    ||| item == Some("clone"@)
    ||| item == Some("reflect"@)
    ||| item == Some("resource"@)
    ||| item == Some("immutable"@)
    ||| item == Some("marker"@)
    ||| item == Some("checksum"@)
}

/// One item asks for what its word says, beside what was asked for before. It is refused as unknown
/// exactly if it is none of the words, and as a second strategy exactly if it names a strategy other
/// than the one before it.
pub proof fn law_item_asks_for_its_word(attrs: RollbackAttrs, item: Option<Seq<char>>)
    ensures
        match with_item(attrs, item) {
            Ok(after) => {
                &&& is_known(item)
                &&& after.strategy == Some(Strategy::Copy) <==> attrs.strategy == Some(
                    Strategy::Copy,
                ) || item == Some("copy"@)
                &&& after.strategy == Some(Strategy::Clone) <==> attrs.strategy == Some(
                    Strategy::Clone,
                ) || item == Some("clone"@)
                &&& after.strategy == Some(Strategy::Reflect) <==> attrs.strategy == Some(
                    Strategy::Reflect,
                ) || item == Some("reflect"@)
                &&& after.resource <==> attrs.resource || item == Some("resource"@)
                &&& after.immutable <==> attrs.immutable || item == Some("immutable"@)
                &&& after.marker <==> attrs.marker || item == Some("marker"@)
                &&& after.checksum <==> attrs.checksum || item == Some("checksum"@)
            },
            Err(ItemError::Unknown) => !is_known(item),
            Err(ItemError::SecondStrategy) => {
                &&& attrs.strategy is Some
                &&& item == Some("copy"@) || item == Some("clone"@) || item == Some("reflect"@)
                &&& item == Some("copy"@) ==> attrs.strategy != Some(Strategy::Copy)
                &&& item == Some("clone"@) ==> attrs.strategy != Some(Strategy::Clone)
                &&& item == Some("reflect"@) ==> attrs.strategy != Some(Strategy::Reflect)
            },
        },
{
    lemma_items_differ();
}

/// Reading no items changes nothing, and reading one is reading that item.
pub proof fn law_items_are_read_one_by_one(attrs: RollbackAttrs, item: Option<Seq<char>>)
    ensures
        with_items(attrs, seq![]) == Ok::<RollbackAttrs, (usize, ItemError)>(attrs),
        match with_item(attrs, item) {
            Ok(after) => with_items(attrs, seq![item]) == Ok::<RollbackAttrs, (usize, ItemError)>(
                after,
            ),
            Err(error) => with_items(attrs, seq![item]) == Err::<RollbackAttrs, (usize, ItemError)>(
                (0, error),
            ),
        },
{
    assert(seq![item].drop_last() =~= seq![]);
    assert(with_items(attrs, seq![]) == Ok::<RollbackAttrs, (usize, ItemError)>(attrs));
}

/// Of several items that cannot be accepted, the first one is told, with its own fault: the items
/// before it are accepted.
pub proof fn law_first_refused_item_is_told(
    attrs: RollbackAttrs,
    items: Seq<Option<Seq<char>>>,
    place: usize,
    error: ItemError,
)
    requires
        items.len() <= usize::MAX,
        with_items(attrs, items) == Err::<RollbackAttrs, (usize, ItemError)>((place, error)),
    ensures
        place < items.len(),
        with_items(attrs, items.take(place as int)) is Ok,
        with_item(with_items(attrs, items.take(place as int))->Ok_0, items[place as int]) == Err::<
            RollbackAttrs,
            ItemError,
        >(error),
    decreases items.len(),
{
    let rest = items.drop_last();
    if with_items(attrs, rest) is Ok {
        assert(items.take(items.len() - 1) =~= rest);
    } else {
        law_first_refused_item_is_told(attrs, rest, place, error);
        assert(items.take(place as int) =~= rest.take(place as int));
    }
}

/// Of several attributes that cannot be accepted, the first `#[rollback(...)]` one is told: those before
/// it are accepted. It is malformed if it has no arguments, or if these break off after items that are
/// accepted; otherwise its first refused item is told.
pub proof fn law_first_refused_attribute_is_told(
    attributes: Seq<(Option<Seq<char>>, Option<(Seq<Option<Seq<char>>>, bool)>)>,
    refusal: DeriveError,
)
    requires
        attributes.len() <= usize::MAX,
        with_attributes(attributes) == Err::<RollbackAttrs, DeriveError>(refusal),
    ensures
        refusal is InvalidAttribute,
        ({
            let place = refusal->attribute as int;
            let before = with_attributes(attributes.take(place));
            &&& 0 <= place < attributes.len()
            &&& attributes[place].0 == Some("rollback"@)
            &&& before is Ok
            &&& match attributes[place].1 {
                None => refusal->InvalidAttribute_error is Malformed,
                Some(arguments) => match with_items(before->Ok_0, arguments.0) {
                    Ok(_) => !arguments.1 && refusal->InvalidAttribute_error is Malformed,
                    Err((item, error)) => refusal->InvalidAttribute_error == (AttributeError::Item {
                        item,
                        error,
                    }),
                },
            }
        }),
    decreases attributes.len(),
{
    let rest = attributes.drop_last();
    if with_attributes(rest) is Ok {
        assert(attributes.take(attributes.len() - 1) =~= rest);
    } else {
        law_first_refused_attribute_is_told(rest, refusal);
        let place = refusal->attribute as int;
        assert(attributes.take(place) =~= rest.take(place));
    }
}

/// The items of all `#[rollback(...)]` attributes are those that one of these has among its arguments.
pub proof fn law_all_items_are_gathered(
    attributes: Seq<(Option<Seq<char>>, Option<(Seq<Option<Seq<char>>>, bool)>)>,
    item: Option<Seq<char>>,
)
    ensures
        all_items(attributes).contains(item) <==> exists|i: int|
            0 <= i < attributes.len() && (#[trigger] attributes[i]).0 == Some("rollback"@)
                && attributes[i].1 is Some && (attributes[i].1->0).0.contains(item),
    decreases attributes.len(),
{
    if attributes.len() > 0 {
        let rest = attributes.drop_last();
        let last = attributes.last();
        law_all_items_are_gathered(rest, item);
        assert(forall|i: int| 0 <= i < rest.len() ==> #[trigger] rest[i] == attributes[i]);
        assert(attributes[attributes.len() - 1] == last);
        if let Some(arguments) = last.1 {
            lemma_contains_of_joined(all_items(rest), arguments.0, item);
        }
        if all_items(rest).contains(item) {
            let i = choose|i: int|
                0 <= i < rest.len() && (#[trigger] rest[i]).0 == Some("rollback"@) && rest[i].1 is Some
                    && (rest[i].1->0).0.contains(item);
            assert(attributes[i] == rest[i]);
        }
        if exists|i: int|
            0 <= i < attributes.len() && (#[trigger] attributes[i]).0 == Some("rollback"@)
                && attributes[i].1 is Some && (attributes[i].1->0).0.contains(item) {
            let i = choose|i: int|
                0 <= i < attributes.len() && (#[trigger] attributes[i]).0 == Some("rollback"@)
                    && attributes[i].1 is Some && (attributes[i].1->0).0.contains(item);
            if i < rest.len() {
                assert(rest[i] == attributes[i]);
            }
        }
    }
}

/// What is among two lists joined is among one of them.
proof fn lemma_contains_of_joined(
    first: Seq<Option<Seq<char>>>,
    second: Seq<Option<Seq<char>>>,
    item: Option<Seq<char>>,
)
    ensures
        (first + second).contains(item) <==> first.contains(item) || second.contains(item),
{
    broadcast use vstd::seq_lib::group_seq_properties;

}

/// A type is refused for want of a strategy exactly if none is asked for; else, as a resource, for being
/// immutable if it is to be that, and else for being tracked by entity if it is to be that.
pub proof fn law_refusal_has_its_reason(attrs: RollbackAttrs)
    ensures
        calls_for(attrs) == Err::<Seq<Seq<char>>, DeriveError>(DeriveError::NoStrategy)
            <==> attrs.strategy is None,
        calls_for(attrs) == Err::<Seq<Seq<char>>, DeriveError>(DeriveError::ResourceAndImmutable)
            <==> attrs.strategy is Some && attrs.resource && attrs.immutable,
        calls_for(attrs) == Err::<Seq<Seq<char>>, DeriveError>(DeriveError::ResourceAndMarker)
            <==> attrs.strategy is Some && attrs.resource && !attrs.immutable && attrs.marker,
{
}

/// The call that registers snapshots is named after what the type is and after the word for the
/// strategy.
pub proof fn law_snapshot_call_is_named_after_its_strategy(
    strategy: Strategy,
    word: Seq<char>,
    resource: bool,
    immutable: bool,
)
    requires
        named_strategy(word) == Some(strategy),
    ensures
        resource ==> snapshot_call(strategy, resource, immutable) == "rollback_resource_with_"@
            + word,
        !resource && immutable ==> snapshot_call(strategy, resource, immutable)
            == "rollback_immutable_component_with_"@ + word,
        !resource && !immutable ==> snapshot_call(strategy, resource, immutable)
            == "rollback_component_with_"@ + word,
{
    reveal_strlit("copy");
    reveal_strlit("clone");
    reveal_strlit("reflect");
    let call = snapshot_call(strategy, resource, immutable);
    if resource {
        reveal_strlit("rollback_resource_with_");
        reveal_strlit("rollback_resource_with_copy");
        reveal_strlit("rollback_resource_with_clone");
        reveal_strlit("rollback_resource_with_reflect");
        assert(call =~= "rollback_resource_with_"@ + word);
    } else if immutable {
        reveal_strlit("rollback_immutable_component_with_");
        reveal_strlit("rollback_immutable_component_with_copy");
        reveal_strlit("rollback_immutable_component_with_clone");
        reveal_strlit("rollback_immutable_component_with_reflect");
        assert(call =~= "rollback_immutable_component_with_"@ + word);
    } else {
        reveal_strlit("rollback_component_with_");
        reveal_strlit("rollback_component_with_copy");
        reveal_strlit("rollback_component_with_clone");
        reveal_strlit("rollback_component_with_reflect");
        assert(call =~= "rollback_component_with_"@ + word);
    }
}

/// Calls that register snapshots are never those that track entities or register a checksum.
proof fn lemma_calls_differ(strategy: Strategy, resource: bool, immutable: bool)
    ensures
        ({
            let call = snapshot_call(strategy, resource, immutable);
            &&& call != "rollback_entities_with"@
            &&& call != "checksum_resource_with_hash"@
            &&& call != "checksum_component_with_hash"@
        }),
        "rollback_entities_with"@ != "checksum_resource_with_hash"@,
        "rollback_entities_with"@ != "checksum_component_with_hash"@,
        "checksum_resource_with_hash"@ != "checksum_component_with_hash"@,
{
    reveal_strlit("rollback_entities_with");
    reveal_strlit("checksum_resource_with_hash");
    reveal_strlit("checksum_component_with_hash");
    reveal_strlit("rollback_resource_with_copy");
    reveal_strlit("rollback_resource_with_clone");
    reveal_strlit("rollback_resource_with_reflect");
    reveal_strlit("rollback_immutable_component_with_copy");
    reveal_strlit("rollback_immutable_component_with_clone");
    reveal_strlit("rollback_immutable_component_with_reflect");
    reveal_strlit("rollback_component_with_copy");
    reveal_strlit("rollback_component_with_clone");
    reveal_strlit("rollback_component_with_reflect");
    assert("rollback_entities_with"@[0] == 'r');
    assert("checksum_resource_with_hash"@[0] == 'c');
    assert("checksum_component_with_hash"@[0] == 'c');
    assert("checksum_resource_with_hash"@[9] == 'r');
    assert("checksum_component_with_hash"@[9] == 'c');
    assert(snapshot_call(strategy, resource, immutable)[0] == 'r');
    assert(snapshot_call(strategy, resource, immutable).len() != "rollback_entities_with"@.len());
}

/// What is asked for is answered by its call, independent of everything else that is asked for: entity
/// tracking by one call, in front; a checksum by one call, at the end, that of a resource for a resource
/// and that of a component otherwise; and snapshots by one call in between. There are no other calls.
pub proof fn law_each_request_has_its_call(attrs: RollbackAttrs, calls: Seq<Seq<char>>)
    requires
        calls_for(attrs) == Ok::<Seq<Seq<char>>, DeriveError>(calls),
    ensures
        calls.contains("rollback_entities_with"@) <==> attrs.marker,
        calls.contains("checksum_resource_with_hash"@) <==> attrs.checksum && attrs.resource,
        calls.contains("checksum_component_with_hash"@) <==> attrs.checksum && !attrs.resource,
        attrs.marker ==> calls[0] == "rollback_entities_with"@,
        attrs.checksum && attrs.resource ==> calls.last() == "checksum_resource_with_hash"@,
        attrs.checksum && !attrs.resource ==> calls.last() == "checksum_component_with_hash"@,
        attrs.strategy is Some,
        calls[if attrs.marker {
            1int
        } else {
            0int
        }] == snapshot_call(attrs.strategy->0, attrs.resource, attrs.immutable),
        calls.len() == 1 + (if attrs.marker {
            1int
        } else {
            0int
        }) + (if attrs.checksum {
            1int
        } else {
            0int
        }),
{
    lemma_calls_differ(attrs.strategy->0, attrs.resource, attrs.immutable);
    let len = calls.len() as int;
    if attrs.marker {
        assert(calls[0] == "rollback_entities_with"@);
    }
    if attrs.checksum {
        assert(calls[len - 1] == calls.last());
    }
}

/// A type is registered by the calls for the words that its `#[rollback(...)]` attributes hold: tracking
/// exactly if one of them holds `marker`, a checksum exactly if one holds `checksum`, that of a resource
/// exactly if one holds `resource`, and snapshots by the strategy that one holds.
pub proof fn law_calls_answer_attributes(
    attributes: Seq<(Option<Seq<char>>, Option<(Seq<Option<Seq<char>>>, bool)>)>,
    calls: Seq<Seq<char>>,
)
    requires
        calls_of(attributes) == Ok::<Seq<Seq<char>>, DeriveError>(calls),
    ensures
        ({
            let items = all_items(attributes);
            let marker = items.contains(Some("marker"@));
            let checksum = items.contains(Some("checksum"@));
            let resource = items.contains(Some("resource"@));
            let immutable = items.contains(Some("immutable"@));
            let place = if marker {
                1int
            } else {
                0int
            };
            let kind = if resource {
                "rollback_resource_with_"@
            } else if immutable {
                "rollback_immutable_component_with_"@
            } else {
                "rollback_component_with_"@
            };
            &&& calls.contains("rollback_entities_with"@) <==> marker
            &&& calls.contains("checksum_resource_with_hash"@) <==> checksum && resource
            &&& calls.contains("checksum_component_with_hash"@) <==> checksum && !resource
            &&& items.contains(Some("copy"@)) ==> calls[place] == kind + "copy"@
            &&& items.contains(Some("clone"@)) ==> calls[place] == kind + "clone"@
            &&& items.contains(Some("reflect"@)) ==> calls[place] == kind + "reflect"@
            &&& items.contains(Some("copy"@)) || items.contains(Some("clone"@)) || items.contains(
                Some("reflect"@),
            )
            &&& calls.len() == 1 + place + (if checksum {
                1int
            } else {
                0int
            })
        }),
{
    lemma_items_differ();
    let items = all_items(attributes);
    let attrs = with_attributes(attributes)->Ok_0;
    law_attributes_are_one(attributes);
    law_items_mean_what_they_say(items, attrs);
    law_each_request_has_its_call(attrs, calls);
    let strategy = attrs.strategy->0;
    assert(names_strategy(items, strategy));
    law_strategy_is_named_by_its_word(items, Strategy::Copy, "copy"@);
    law_strategy_is_named_by_its_word(items, Strategy::Clone, "clone"@);
    law_strategy_is_named_by_its_word(items, Strategy::Reflect, "reflect"@);
    if strategy == Strategy::Copy {
        law_snapshot_call_is_named_after_its_strategy(
            strategy,
            "copy"@,
            attrs.resource,
            attrs.immutable,
        );
    } else if strategy == Strategy::Clone {
        law_snapshot_call_is_named_after_its_strategy(
            strategy,
            "clone"@,
            attrs.resource,
            attrs.immutable,
        );
    } else {
        law_snapshot_call_is_named_after_its_strategy(
            strategy,
            "reflect"@,
            attrs.resource,
            attrs.immutable,
        );
    }
}

/// Some item names a strategy exactly if the word for it is among the items.
pub proof fn law_strategy_is_named_by_its_word(
    items: Seq<Option<Seq<char>>>,
    strategy: Strategy,
    word: Seq<char>,
)
    requires
        named_strategy(word) == Some(strategy),
    ensures
        word == "copy"@ || word == "clone"@ || word == "reflect"@,
        names_strategy(items, strategy) <==> items.contains(Some(word)),
{
    if names_strategy(items, strategy) {
        let i = choose|i: int|
            0 <= i < items.len() && #[trigger] items[i] is Some && named_strategy(items[i]->0)
                == Some(strategy);
        assert(items[i] == Some(word));
    }
    if items.contains(Some(word)) {
        let i = choose|i: int| 0 <= i < items.len() && items[i] == Some(word);
        assert(items[i] is Some);
    }
}

/// What is told of a refusal depends on the fault alone, not on where it is; a fault that the Rust parser
/// found is left to it, and every other fault is told.
pub proof fn law_messages_go_by_the_fault(
    attribute: usize,
    other_attribute: usize,
    item: usize,
    other_item: usize,
    error: ItemError,
    refusal: DeriveError,
)
    ensures
        message_of(
            DeriveError::InvalidAttribute {
                attribute,
                error: AttributeError::Item { item, error },
            },
        ) == message_of(
            DeriveError::InvalidAttribute {
                attribute: other_attribute,
                error: AttributeError::Item { item: other_item, error },
            },
        ),
        message_of(refusal) is None <==> refusal is InvalidDefinition || (refusal is InvalidAttribute
            && refusal->InvalidAttribute_error is Malformed),
{
}

/// The texts of calls are those of the calls, one for one, and an error stays an error.
pub proof fn law_texts_are_of_the_calls(result: Result<Vec<&'static str>, DeriveError>)
    ensures
        match (result, call_texts(result)) {
            (Ok(calls), Ok(texts)) => texts.len() == calls@.len() && forall|i: int|
                0 <= i < calls@.len() ==> #[trigger] texts[i] == calls@[i]@,
            (Err(error), Err(told)) => error == told,
            _ => false,
        },
{
}

/// What is seen of an attribute is its name, and its items one for one in their order.
pub proof fn law_attribute_is_seen_as_it_is(source: &AttributeSource)
    ensures
        source.name is Some ==> source@.0 == Some((source.name->0)@),
        source.name is None ==> source@.0 is None,
        source.arguments is None ==> source@.1 is None,
        source.arguments is Some ==> {
            let arguments = source.arguments->0;
            let seen = source@.1->0;
            &&& source@.1 is Some
            &&& seen.1 == arguments.complete
            &&& seen.0.len() == arguments.items@.len()
            &&& forall|i: int|
                0 <= i < seen.0.len() ==> match arguments.items@[i] {
                    Some(item) => #[trigger] seen.0[i] == Some(item@),
                    None => seen.0[i] is None,
                }
        },
{
}

/// Where attributes are accepted, every `#[rollback(...)]` one has arguments that are items and commas
/// throughout, and each of these is one of the words that have a meaning.
pub proof fn law_accepted_attributes_are_whole(
    attributes: Seq<(Option<Seq<char>>, Option<(Seq<Option<Seq<char>>>, bool)>)>,
    i: int,
    j: int,
)
    requires
        with_attributes(attributes) is Ok,
        0 <= i < attributes.len(),
        attributes[i].0 == Some("rollback"@),
    ensures
        attributes[i].1 is Some,
        (attributes[i].1->0).1,
        0 <= j < (attributes[i].1->0).0.len() ==> is_known((attributes[i].1->0).0[j]),
{
    law_attributes_are_one(attributes);
    assert(is_rollback(attributes[i]));
    let items = (attributes[i].1->0).0;
    if 0 <= j < items.len() {
        assert(items.contains(items[j]));
        law_all_items_are_gathered(attributes, items[j]);
        law_items_are_accepted(all_items(attributes));
        let k = choose|k: int|
            0 <= k < all_items(attributes).len() && all_items(attributes)[k] == items[j];
        assert(all_items(attributes)[k] is Some);
    }
}

/// Attributes that are refused give no calls but their refusal, and those that are accepted give the
/// calls for what they ask for; so does a definition by its attributes, and where there is none, that is
/// told.
pub proof fn law_refused_attributes_give_no_calls(
    attributes: Seq<(Option<Seq<char>>, Option<(Seq<Option<Seq<char>>>, bool)>)>,
    definition: syn::DeriveInput,
)
    ensures
        with_attributes(attributes) is Ok ==> calls_of(attributes) == calls_for(
            with_attributes(attributes)->Ok_0,
        ),
        with_attributes(attributes) is Err ==> calls_of(attributes) is Err && calls_of(
            attributes,
        )->Err_0 == with_attributes(attributes)->Err_0,
        calls_of_read(Some(definition)) == calls_of(attributes_read(definition)),
        calls_of_read(None) == Err::<Seq<Seq<char>>, DeriveError>(DeriveError::InvalidDefinition),
{
}

} // verus!
