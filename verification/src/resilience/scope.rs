//! The identity of the world and dimension an observation belongs to.
use vstd::prelude::*;

use crate::text;
use crate::text::{byte_len, contains_control};

verus! {

pub const MAX_SCOPE_COMPONENT_BYTES: usize = 128;

/// Explicit identity of the world and dimension an observation belongs to.
///
/// Callers should use stable server-provided identifiers. In particular,
/// entity positions from one dimension must never be reused in another merely
/// because their block coordinates happen to match.
#[derive(PartialEq, Eq, Hash, Debug)]
pub struct WorldScope {
    world: String,
    dimension: String,
}

#[derive(Clone, Copy, PartialEq, Eq, Debug)]
pub enum WorldScopeError {
    Empty(&'static str),
    TooLong { field: &'static str, bytes: usize, maximum: usize },
    ContainsControl(&'static str),
}

/// Whether `error` is what is wrong with a scope component called `field`.
pub open spec fn component_error(error: WorldScopeError, field: Seq<char>, value: Seq<char>) -> bool {
    match error {
        WorldScopeError::Empty(name) => name@ == field && value.len() == 0,
        WorldScopeError::TooLong { field: name, bytes, maximum } => {
            &&& name@ == field
            &&& value.len() > 0
            &&& bytes == text::utf8_len(value)
            &&& bytes > MAX_SCOPE_COMPONENT_BYTES
            &&& maximum == MAX_SCOPE_COMPONENT_BYTES
        },
        WorldScopeError::ContainsControl(name) => {
            &&& name@ == field
            &&& value.len() > 0
            &&& text::utf8_len(value) <= MAX_SCOPE_COMPONENT_BYTES
            &&& text::has_control(value)
        },
    }
}

fn validate_scope_component(field: &'static str, value: &str) -> (checked: Result<
    (),
    WorldScopeError,
>)
    ensures
        match checked {
            Ok(()) => text::is_context_text(value@),
            Err(error) => component_error(error, field@, value@) && !text::is_context_text(value@),
        },
{
    if value.unicode_len() == 0 {
        return Err(WorldScopeError::Empty(field));
    }
    let bytes: usize = byte_len(value);
    if bytes > MAX_SCOPE_COMPONENT_BYTES {
        return Err(
            WorldScopeError::TooLong { field, bytes, maximum: MAX_SCOPE_COMPONENT_BYTES },
        );
    }
    if contains_control(value) {
        return Err(WorldScopeError::ContainsControl(field));
    }
    Ok(())
}

impl WorldScope {
    pub closed spec fn world_name(self) -> Seq<char> {
        self.world@
    }

    pub closed spec fn dimension_name(self) -> Seq<char> {
        self.dimension@
    }

    /// Whether two scopes name the same world and dimension.
    pub open spec fn same(self, other: WorldScope) -> bool {
        self.world_name() == other.world_name() && self.dimension_name() == other.dimension_name()
    }

    /// Constructs a bounded, non-empty scope key.
    pub fn try_new(world: &str, dimension: &str) -> (made: Result<WorldScope, WorldScopeError>)
        ensures
            match made {
                Ok(scope) => {
                    &&& text::is_context_text(world@)
                    &&& text::is_context_text(dimension@)
                    &&& scope.world_name() == world@
                    &&& scope.dimension_name() == dimension@
                },
                Err(error) => if !text::is_context_text(world@) {
                    component_error(error, "world"@, world@)
                } else {
                    component_error(error, "dimension"@, dimension@) && !text::is_context_text(
                        dimension@,
                    )
                },
            },
    {
        if let Err(error) = validate_scope_component("world", world) {
            return Err(error);
        }
        if let Err(error) = validate_scope_component("dimension", dimension) {
            return Err(error);
        }
        Ok(WorldScope { world: world.to_owned(), dimension: dimension.to_owned() })
    }

    pub fn world(&self) -> (name: &str)
        ensures
            name@ == self.world_name(),
    {
        self.world.as_str()
    }

    pub fn dimension(&self) -> (name: &str)
        ensures
            name@ == self.dimension_name(),
    {
        self.dimension.as_str()
    }

    pub fn is_same(&self, other: &WorldScope) -> (r: bool)
        ensures
            r == self.same(*other),
    {
        self.world == other.world && self.dimension == other.dimension
    }
}

impl Clone for WorldScope {
    fn clone(&self) -> (copy: WorldScope)
        ensures
            copy == *self,
    {
        WorldScope { world: self.world.clone(), dimension: self.dimension.clone() }
    }
}

} // verus!
