//! Value types shared by the structure builder: a three-component vector and
//! the description of a block.

use vstd::prelude::*;
use crate::nbt::text::str_eq;
use crate::seqs::{first_where, lemma_first_where, lemma_first_where_is};

verus! {

/// An immutable triple of components.
#[derive(Debug, PartialEq)]
pub struct Vec3<T> {
    e: [T; 3],
}

impl<T> Vec3<T> {
    /// The first component, for use in contracts.
    pub closed spec fn spec_x(&self) -> &T {
        &self.e[0]
    }

    /// The second component, for use in contracts.
    pub closed spec fn spec_y(&self) -> &T {
        &self.e[1]
    }

    /// The third component, for use in contracts.
    pub closed spec fn spec_z(&self) -> &T {
        &self.e[2]
    }

    pub fn new(x: T, y: T, z: T) -> (v: Vec3<T>)
        ensures
            *v.x() == x,
            *v.y() == y,
            *v.z() == z,
    {
        Vec3 { e: [x, y, z] }
    }

    #[verifier::when_used_as_spec(spec_x)]
    pub fn x(&self) -> (r: &T)
        ensures
            r == self.x(),
    {
        &self.e[0]
    }

    #[verifier::when_used_as_spec(spec_y)]
    pub fn y(&self) -> (r: &T)
        ensures
            r == self.y(),
    {
        &self.e[1]
    }

    #[verifier::when_used_as_spec(spec_z)]
    pub fn z(&self) -> (r: &T)
        ensures
            r == self.z(),
    {
        &self.e[2]
    }
}

/// The vector with the three components of `data`.
pub fn vec3_from_slice(data: &[i32]) -> (v: Vec3<i32>)
    requires
        data@.len() == 3,
    ensures
        *v.x() == data@[0],
        *v.y() == data@[1],
        *v.z() == data@[2],
{
    Vec3::<i32>::new(data[0], data[1], data[2])
}

/// The value of one state of a block. A `Bool` is a byte, 0 or 1.
#[derive(Debug, PartialEq)]
pub enum BlockState {
    String(String),
    Int(i32),
    Bool(u8),
}

/// The model of a state value, of which contracts speak.
pub enum BlockStateValue {
    String(Seq<char>),
    Int(i32),
    Bool(u8),
}

impl View for BlockState {
    type V = BlockStateValue;

    open spec fn view(&self) -> BlockStateValue {
        match self {
            BlockState::String(s) => BlockStateValue::String(s@),
            BlockState::Int(v) => BlockStateValue::Int(*v),
            BlockState::Bool(b) => BlockStateValue::Bool(*b),
        }
    }
}

impl Clone for BlockState {
    /// A copy of this value.
    fn clone(&self) -> (copy: BlockState)
        ensures
            copy@ == self@,
    {
        match self {
            BlockState::String(s) => BlockState::String(s.clone()),
            BlockState::Int(v) => BlockState::Int(*v),
            BlockState::Bool(b) => BlockState::Bool(*b),
        }
    }
}

/// The model of a state of a block: its name and its value.
pub struct StateView {
    pub name: Seq<char>,
    pub value: BlockStateValue,
}

/// The model of a block type: its identifier and its states, in the
/// order in which their names were first set.
pub struct BlockTypeView {
    pub type_id: Seq<char>,
    pub states: Seq<StateView>,
}

/// The place of the first of `states` with the given name, or their number
/// if none has it.
pub open spec fn state_index(states: Seq<StateView>, name: Seq<char>) -> int {
    first_where(states, |s: StateView| s.name == name)
}

/// True if no two of `states` have the same name.
pub open spec fn names_distinct(states: Seq<StateView>) -> bool {
    forall|i: int, j: int|
        0 <= i < j < states.len() ==> (#[trigger] states[i]).name != (#[trigger] states[j]).name
}

/// True if `type_id` names a block that holds items.
pub open spec fn is_container_id(type_id: Seq<char>) -> bool {
    type_id == "minecraft:barrel"@ || type_id == "minecraft:chest"@
}

impl BlockTypeView {
    /// This block type with the named state set to `value`: in place where
    /// the name is there already, else behind the others.
    pub open spec fn with_state(self, name: Seq<char>, value: BlockStateValue) -> BlockTypeView {
        let i = state_index(self.states, name);
        if i < self.states.len() {
            BlockTypeView { states: self.states.update(i, StateView { name, value }), ..self }
        } else {
            BlockTypeView { states: self.states.push(StateView { name, value }), ..self }
        }
    }
}

/// The views of the states in `v`, in order.
pub open spec fn state_views(v: Seq<(String, BlockState)>) -> Seq<StateView> {
    Seq::new(v.len(), |i: int| StateView { name: v[i].0@, value: v[i].1@ })
}

/// Setting a state keeps the names distinct.
pub proof fn lemma_with_state_keeps_names_distinct(
    block: BlockTypeView,
    name: Seq<char>,
    value: BlockStateValue,
)
    requires
        names_distinct(block.states),
    ensures
        names_distinct(block.with_state(name, value).states),
{
    lemma_first_where(block.states, |s: StateView| s.name == name);
    let i = state_index(block.states, name);
    let after = block.with_state(name, value).states;
    assert forall|a: int, b: int| 0 <= a < b < after.len() implies (#[trigger] after[a]).name != (
    #[trigger] after[b]).name by {
        if i < block.states.len() {
            assert(after[a].name == block.states[a].name);
            assert(after[b].name == block.states[b].name);
        } else {
            if b == block.states.len() {
                assert(!(block.states[a].name == name));
            }
        }
    }
}

/// The type of a block: an identifier and a list of named states. No two
/// states have the same name.
#[derive(Debug, PartialEq)]
pub struct BlockType {
    type_id: String,
    states: Vec<(String, BlockState)>,
}

impl View for BlockType {
    type V = BlockTypeView;

    closed spec fn view(&self) -> BlockTypeView {
        BlockTypeView { type_id: self.type_id@, states: state_views(self.states@) }
    }
}

impl BlockType {
    #[verifier::type_invariant]
    spec fn well_formed(&self) -> bool {
        names_distinct(state_views(self.states@))
    }

    /// The block type with the given identifier and no state.
    pub fn new(namespace: &str) -> (block: BlockType)
        ensures
            block@ == (BlockTypeView { type_id: namespace@, states: Seq::empty() }),
    {
        let states: Vec<(String, BlockState)> = Vec::new();
        assert(state_views(states@) =~= Seq::empty());
        BlockType { type_id: namespace.to_owned(), states }
    }

    /// Sets the named state: replaces its value where the name is there
    /// already, else appends it.
    pub fn set_state(self, state_name: &str, state: &BlockState) -> (block: BlockType)
        ensures
            block@ == self@.with_state(state_name@, state@),
            names_distinct(block@.states),
    {
        proof {
            use_type_invariant(&self);
            lemma_with_state_keeps_names_distinct(self@, state_name@, state@);
        }
        let ghost before = self@;
        let BlockType { type_id, mut states } = self;
        let mut i: usize = 0;
        while i < states.len()
            invariant
                i <= states@.len(),
                forall|j: int| 0 <= j < i ==> (#[trigger] state_views(states@)[j]).name != state_name@,
            ensures
                i <= states@.len(),
                forall|j: int| 0 <= j < i ==> (#[trigger] state_views(states@)[j]).name != state_name@,
                i < states@.len() ==> state_views(states@)[i as int].name == state_name@,
            decreases states@.len() - i,
        {
            if str_eq(states[i].0.as_str(), state_name) {
                break;
            }
            i = i + 1;
        }
        proof {
            lemma_first_where_is(
                state_views(states@),
                |s: StateView| s.name == state_name@,
                i as int,
            );
        }
        let ghost old_states = states@;
        if i < states.len() {
            states.set(i, (state_name.to_owned(), state.clone()));
            assert(state_views(states@) =~= state_views(old_states).update(
                i as int,
                StateView { name: state_name@, value: state@ },
            ));
        } else {
            states.push((state_name.to_owned(), state.clone()));
            assert(state_views(states@) =~= state_views(old_states).push(
                StateView { name: state_name@, value: state@ },
            ));
        }
        BlockType { type_id, states }
    }

    /// True if and only if blocks of this type hold items.
    pub fn is_container(&self) -> (b: bool)
        ensures
            b == is_container_id(self@.type_id),
    {
        str_eq(self.type_id.as_str(), "minecraft:barrel") || str_eq(
            self.type_id.as_str(),
            "minecraft:chest",
        )
    }

    /// The identifier of this block type.
    pub fn type_id(&self) -> (id: &str)
        ensures
            id@ == self@.type_id,
    {
        self.type_id.as_str()
    }

    /// The states of this block type, in order.
    pub fn states(&self) -> (states: &Vec<(String, BlockState)>)
        ensures
            state_views(states@) == self@.states,
            names_distinct(self@.states),
    {
        proof {
            use_type_invariant(self);
        }
        &self.states
    }
}

impl Clone for BlockType {
    /// A copy of this block type.
    fn clone(&self) -> (copy: BlockType)
        ensures
            copy@ == self@,
    {
        proof {
            use_type_invariant(self);
        }
        let mut states: Vec<(String, BlockState)> = Vec::new();
        let mut i: usize = 0;
        while i < self.states.len()
            invariant
                i <= self.states@.len(),
                states@.len() == i,
                forall|j: int|
                    0 <= j < i ==> (#[trigger] states@[j]).0@ == self.states@[j].0@ && states@[j].1@
                        == self.states@[j].1@,
            decreases self.states@.len() - i,
        {
            states.push((self.states[i].0.clone(), self.states[i].1.clone()));
            i = i + 1;
        }
        assert(state_views(states@) =~= state_views(self.states@));
        BlockType { type_id: self.type_id.clone(), states }
    }
}

} // verus!
