//! Nodes, and the registry that builds them by name.

use crate::context::{TypedContext, ValueView};
use crate::text::same_text;
use vstd::prelude::*;

verus! {

/// Why a node gave up.
#[derive(Debug)]
pub enum NodeFailure {
    /// The node said what went wrong.
    Text(String),
    /// The node failed without a message.
    Opaque,
}

/// A unit of work: reads from the context, computes, writes to the context.
pub trait Node {
    /// What one run of the node may do: whether, started on the context
    /// `before` with the keys `input_id` and `output_id`, it may leave the
    /// context `after` and end with `outcome`.
    ///
    /// An implementation that does not say what it does admits every run.
    open spec fn effect(
        &self,
        before: Map<Seq<char>, ValueView>,
        input_id: Seq<char>,
        output_id: Seq<char>,
        after: Map<Seq<char>, ValueView>,
        outcome: Result<(), NodeFailure>,
    ) -> bool {
        true
    }

    /// Runs the node once. `input_id` and `output_id` are the keys of the
    /// slots that the action assigned to it. What was written to the context
    /// before a failure stays written.
    fn execute(&self, context: &mut TypedContext, input_id: String, output_id: String) -> (outcome:
        Result<(), NodeFailure>)
        ensures
            self.effect(old(context)@, input_id@, output_id@, final(context)@, outcome),
    ;
}

/// A boxed node of any kind is a node: it does what the node in the box does.
impl Node for Box<dyn Node> {
    open spec fn effect(
        &self,
        before: Map<Seq<char>, ValueView>,
        input_id: Seq<char>,
        output_id: Seq<char>,
        after: Map<Seq<char>, ValueView>,
        outcome: Result<(), NodeFailure>,
    ) -> bool {
        (**self).effect(before, input_id, output_id, after, outcome)
    }

    fn execute(&self, context: &mut TypedContext, input_id: String, output_id: String) -> (outcome:
        Result<(), NodeFailure>) {
        (**self).execute(context, input_id, output_id)
    }
}

/// A node's identifier and the constructor that builds a fresh instance.
pub struct NodeRegistration<F> {
    pub class_name: &'static str,
    pub constructor: F,
}

/// Whether `i` is the first place at which `id` stands in `names`: the place
/// of the registration that `id` resolves to.
pub open spec fn is_first(names: Seq<Seq<char>>, id: Seq<char>, i: int) -> bool {
    &&& 0 <= i < names.len()
    &&& names[i] == id
    &&& forall|j: int| 0 <= j < i ==> names[j] != id
}

/// The registrations of a process, in the order in which they were made.
///
/// Identifiers should be unique. Where one is registered twice, the
/// registration made first is the one that resolves. `N` is the type of the
/// nodes that the constructors build: one node type, or `Box<dyn Node>` for
/// nodes of many types.
#[verifier::reject_recursive_types(N)]
pub struct NodeRegistry<N, F> where N: Node, F: Fn() -> N {
    registrations: Vec<NodeRegistration<F>>,
    marker: core::marker::PhantomData<N>,
}

/// Whether `node` may come out of the constructor that `id` resolves to.
pub open spec fn built_for<N, F>(
    names: Seq<Seq<char>>,
    constructors: Seq<F>,
    id: Seq<char>,
    node: N,
) -> bool where N: Node, F: Fn() -> N {
    exists|i: int| #[trigger] is_first(names, id, i) && call_ensures(constructors[i], (), node)
}

impl<N, F> NodeRegistry<N, F> where N: Node, F: Fn() -> N {
    #[verifier::type_invariant]
    spec fn constructors_callable(&self) -> bool {
        forall|i: int|
            0 <= i < self.registrations@.len() ==> call_requires(
                #[trigger] self.registrations@[i].constructor,
                (),
            )
    }

    /// The registered identifiers, in registration order.
    pub closed spec fn names(&self) -> Seq<Seq<char>> {
        self.registrations@.map_values(|r: NodeRegistration<F>| r.class_name@)
    }

    /// The registered constructors, in registration order: the one at each
    /// place belongs to the identifier at that place of `names`.
    pub closed spec fn constructors(&self) -> Seq<F> {
        self.registrations@.map_values(|r: NodeRegistration<F>| r.constructor)
    }

    /// A registry without registrations.
    pub fn new() -> (r: Self)
        ensures
            r.names() == Seq::<Seq<char>>::empty(),
            r.constructors() == Seq::<F>::empty(),
    {
        let r = NodeRegistry { registrations: Vec::new(), marker: core::marker::PhantomData };
        assert(r.names() =~= Seq::<Seq<char>>::empty());
        assert(r.constructors() =~= Seq::<F>::empty());
        r
    }

    /// Adds a registration after those already made.
    pub fn register(&mut self, registration: NodeRegistration<F>)
        requires
            call_requires(registration.constructor, ()),
        ensures
            final(self).names() == old(self).names().push(registration.class_name@),
            final(self).constructors() == old(self).constructors().push(registration.constructor),
    {
        proof {
            use_type_invariant(&*self);
        }
        let mut registrations = Vec::new();
        core::mem::swap(&mut self.registrations, &mut registrations);
        registrations.push(registration);
        core::mem::swap(&mut self.registrations, &mut registrations);
        assert(self.names() =~= old(self).names().push(registration.class_name@));
        assert(self.constructors() =~= old(self).constructors().push(registration.constructor));
    }

    /// The place of the registration that `class_name` resolves to: the
    /// first one made under that identifier.
    pub fn position(&self, class_name: &str) -> (r: Option<usize>)
        ensures
            match r {
                Some(i) => is_first(self.names(), class_name@, i as int),
                None => !self.names().contains(class_name@),
            },
    {
        let mut i: usize = 0;
        while i < self.registrations.len()
            invariant
                i <= self.registrations@.len(),
                forall|j: int| 0 <= j < i ==> self.names()[j] != class_name@,
            decreases self.registrations@.len() - i,
        {
            if same_text(self.registrations[i].class_name, class_name) {
                return Some(i);
            }
            i += 1;
        }
        None
    }
}

/// Builds a fresh node for `class_name`, or reports that no registration
/// carries that identifier.
///
/// Each call runs the constructor of the registration that the identifier
/// resolves to, so no two calls share an instance.
pub fn get_node<N, F>(registry: &NodeRegistry<N, F>, class_name: &str) -> (r: Option<N>) where
    N: Node,
    F: Fn() -> N,

    ensures
        match r {
            Some(node) => built_for(
                registry.names(),
                registry.constructors(),
                class_name@,
                node,
            ),
            None => !registry.names().contains(class_name@),
        },
{
    proof {
        use_type_invariant(registry);
    }
    match registry.position(class_name) {
        Some(i) => {
            let node = (registry.registrations[i].constructor)();
            assert(registry.constructors()[i as int] == registry.registrations@[i as int].constructor);
            assert(is_first(registry.names(), class_name@, i as int));
            Some(node)
        },
        None => None,
    }
}

/// An identifier resolves to at most one registration.
pub proof fn lemma_first_is_unique(names: Seq<Seq<char>>, id: Seq<char>, i: int, j: int)
    requires
        is_first(names, id, i),
        is_first(names, id, j),
    ensures
        i == j,
{
    if i < j {
        assert(names[i] != id);
    } else if j < i {
        assert(names[j] != id);
    }
}

/// Registering another identifier does not make an unregistered one resolve,
/// however many registrations there are.
pub proof fn lemma_unregistered_stays(names: Seq<Seq<char>>, other: Seq<char>, id: Seq<char>)
    requires
        !names.contains(id),
        other != id,
    ensures
        !names.push(other).contains(id),
{
    let after = names.push(other);
    assert forall|i: int| 0 <= i < after.len() implies after[i] != id by {
        if i < names.len() {
            assert(after[i] == names[i]);
        }
    }
}

/// A registration made later does not change what an identifier that was
/// already registered resolves to: the first registration wins.
pub proof fn lemma_first_registration_wins(
    names: Seq<Seq<char>>,
    other: Seq<char>,
    id: Seq<char>,
    i: int,
)
    requires
        is_first(names, id, i),
    ensures
        is_first(names.push(other), id, i),
{
    let after = names.push(other);
    assert(after[i] == names[i]);
    assert forall|j: int| 0 <= j < i implies after[j] != id by {
        assert(after[j] == names[j]);
    }
}

} // verus!
