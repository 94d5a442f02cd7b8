//! The circuit intent a language model proposes: components to place and
//! nets to connect.

use vstd::prelude::*;
use crate::text::to_string;

verus! {

/// A parts distributor.
#[derive(Debug, Clone, Copy, PartialEq, Eq, Hash, Structural)]
pub enum Distributor {
    Lcsc,
    DigiKey,
    Mouser,
}

/// A component the intent asks for, by function, with the real part that
/// validation attached to it.
#[derive(Debug, Clone)]
pub struct ComponentRequest {
    pub function: String,
    pub designator_prefix: String,
    pub verified_part_number: Option<String>,
    pub preferred_distributor: Option<Distributor>,
    pub in_stock_quantity: Option<u64>,
}

/// What a component request holds.
pub struct ComponentView {
    pub function: Seq<char>,
    pub designator_prefix: Seq<char>,
    pub verified_part_number: Option<Seq<char>>,
    pub preferred_distributor: Option<Distributor>,
    pub in_stock_quantity: Option<u64>,
}

/// The view of an optional string.
pub open spec fn opt_view(o: Option<String>) -> Option<Seq<char>> {
    match o {
        Some(s) => Some(s@),
        None => None,
    }
}

impl View for ComponentRequest {
    type V = ComponentView;

    open spec fn view(&self) -> ComponentView {
        ComponentView {
            function: self.function@,
            designator_prefix: self.designator_prefix@,
            verified_part_number: opt_view(self.verified_part_number),
            preferred_distributor: self.preferred_distributor,
            in_stock_quantity: self.in_stock_quantity,
        }
    }
}

/// The views of a list of component requests.
pub open spec fn component_views(v: Seq<ComponentRequest>) -> Seq<ComponentView> {
    v.map_values(|c: ComponentRequest| c@)
}

impl ComponentRequest {
    /// A request for `function` with no part attached yet.
    pub fn new(function: &str, designator_prefix: &str) -> (r: Self)
        ensures
            r@ == (ComponentView {
                function: function@,
                designator_prefix: designator_prefix@,
                verified_part_number: None,
                preferred_distributor: None,
                in_stock_quantity: None,
            }),
    {
        ComponentRequest {
            function: to_string(function),
            designator_prefix: to_string(designator_prefix),
            verified_part_number: None,
            preferred_distributor: None,
            in_stock_quantity: None,
        }
    }
}

/// A net between two component pins, each named `(component, pin)`.
#[derive(Debug)]
pub struct ConnectionIntent {
    pub net_name: String,
    pub from: (String, String),
    pub to: (String, String),
}

/// What a connection holds.
pub open spec fn connection_view(c: ConnectionIntent) -> (Seq<char>, (Seq<char>, Seq<char>), (
    Seq<char>,
    Seq<char>,
)) {
    (c.net_name@, (c.from.0@, c.from.1@), (c.to.0@, c.to.1@))
}

/// A proposed circuit: the request it answers, its components, its
/// connections and constraints, and whether validation passed.
#[derive(Debug)]
pub struct CircuitIntent {
    pub prompt: String,
    pub components: Vec<ComponentRequest>,
    pub connections: Vec<ConnectionIntent>,
    pub constraints: Vec<String>,
    pub is_validated: bool,
}

impl CircuitIntent {
    /// An empty, unvalidated intent for `prompt`.
    pub fn new(prompt: &str) -> (r: Self)
        ensures
            r.prompt@ == prompt@,
            r.components@.len() == 0,
            r.connections@.len() == 0,
            r.constraints@.len() == 0,
            !r.is_validated,
    {
        CircuitIntent {
            prompt: to_string(prompt),
            components: Vec::new(),
            connections: Vec::new(),
            constraints: Vec::new(),
            is_validated: false,
        }
    }

    /// Appends a component request.
    pub fn add_component(&mut self, component: ComponentRequest)
        ensures
            final(self).components@ == old(self).components@.push(component),
            final(self).prompt == old(self).prompt,
            final(self).connections == old(self).connections,
            final(self).constraints == old(self).constraints,
            final(self).is_validated == old(self).is_validated,
    {
        self.components.push(component);
    }

    /// Appends a connection of net `net_name` from one pin to another.
    pub fn add_connection(&mut self, net_name: &str, from: (&str, &str), to: (&str, &str))
        ensures
            final(self).connections@.len() == old(self).connections@.len() + 1,
            forall|i: int|
                0 <= i < old(self).connections@.len() ==> final(self).connections@[i] == old(
                    self,
                ).connections@[i],
            connection_view(final(self).connections@.last()) == (
                net_name@,
                (from.0@, from.1@),
                (to.0@, to.1@),
            ),
            final(self).prompt == old(self).prompt,
            final(self).components == old(self).components,
            final(self).constraints == old(self).constraints,
            final(self).is_validated == old(self).is_validated,
    {
        self.connections.push(
            ConnectionIntent {
                net_name: to_string(net_name),
                from: (to_string(from.0), to_string(from.1)),
                to: (to_string(to.0), to_string(to.1)),
            },
        );
    }
}

} // verus!
