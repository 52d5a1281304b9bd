//! Module parameters: a tensor (or an optional tensor) with its identifier,
//! its state, and the loading of a state.
use vstd::prelude::*;
use std::borrow::ToOwned;
use crate::tensor::{copy_vec, num_elements, shape_fits, shape_size, Data, Device, Tensor, TensorView};

verus! {

/// The identifier of a parameter.
#[derive(Debug)]
pub struct ParamId {
    pub value: String,
}

/// A parameter: an identifier and a value.
#[derive(Debug)]
pub struct Param<T> {
    pub id: ParamId,
    pub value: T,
}

/// Why a state could not be loaded.
#[derive(Debug)]
pub struct LoadingError {
    pub message: String,
}

/// A named state.
#[derive(Debug)]
pub struct NamedState<E> {
    pub name: String,
    pub state: State<E>,
}

/// States by name.
#[derive(Debug)]
pub struct StateNamed<E> {
    pub values: Vec<NamedState<E>>,
}

/// The state of a module or of a parameter.
#[derive(Debug)]
pub enum State<E> {
    Data(Data<E>),
    StateNamed(StateNamed<E>),
    ParamId(ParamId),
}

/// The state of the first entry named `name`.
pub open spec fn named_lookup<E>(entries: Seq<NamedState<E>>, name: Seq<char>) -> Option<State<E>>
    decreases entries.len(),
{
    if entries.len() == 0 {
        None
    } else if entries[0].name@ == name {
        Some(entries[0].state)
    } else {
        named_lookup(entries.skip(1), name)
    }
}

/// The identifier and the data of a state written by [`state_with_id`]:
/// the entry `"data"`, and the entry `"id"` when it is an identifier.
pub open spec fn split_with_id<E>(state: State<E>) -> Option<(Seq<char>, State<E>)> {
    match state {
        State::StateNamed(w) => match (
            named_lookup(w.values@, "data"@),
            named_lookup(w.values@, "id"@),
        ) {
            (Some(d), Some(State::ParamId(id))) => Some((id.value@, d)),
            _ => None,
        },
        _ => None,
    }
}

impl<E> StateNamed<E> {
    /// No state.
    pub fn new() -> (r: Self)
        ensures
            r.values@.len() == 0,
    {
        StateNamed { values: Vec::new() }
    }

    /// The state named `name`.
    pub fn get(&self, name: &String) -> (r: Option<&State<E>>)
        ensures
            match r {
                Some(s) => named_lookup(self.values@, name@) == Some(*s),
                None => named_lookup(self.values@, name@) is None,
            },
    {
        let mut k: usize = 0;
        assert(self.values@.skip(0) =~= self.values@);
        while k < self.values.len()
            invariant
                k <= self.values@.len(),
                named_lookup(self.values@, name@) == named_lookup(self.values@.skip(k as int), name@),
            decreases self.values@.len() - k,
        {
            proof {
                assert(self.values@.skip(k as int).skip(1) =~= self.values@.skip(k + 1));
            }
            if self.values[k].name == *name {
                return Some(&self.values[k].state);
            }
            k = k + 1;
        }
        None
    }

    /// Add a named state at the end.
    pub fn register_state(&mut self, name: String, state: State<E>)
        ensures
            final(self).values@ == old(self).values@.push(NamedState { name, state }),
    {
        self.values.push(NamedState { name, state });
    }
}

/// A copy of an identifier.
pub fn copy_id(id: &ParamId) -> (r: ParamId)
    ensures
        r.value@ == id.value@,
{
    ParamId { value: id.value.clone() }
}

/// `state` wrapped with the identifier: the entries `"data"` then `"id"`.
pub fn state_with_id<E>(id: ParamId, state: State<E>) -> (r: State<E>)
    ensures
        r matches State::StateNamed(w) && w.values@.len() == 2 && w.values@[0].name@ == "data"@
            && w.values@[0].state == state && w.values@[1].name@ == "id"@
            && w.values@[1].state == State::<E>::ParamId(id),
        split_with_id(r) == Some((id.value@, state)),
{
    let mut state_wrapper = StateNamed::new();
    state_wrapper.register_state("data".to_owned(), state);
    state_wrapper.register_state("id".to_owned(), State::ParamId(id));
    proof {
        reveal_strlit("data");
        reveal_strlit("id");
        let w = state_wrapper.values@;
        assert("id"@.len() == 2);
        assert(named_lookup(w.skip(1), "id"@) == Some(w[1].state));
    }
    State::StateNamed(state_wrapper)
}

/// Why a state written by [`state_with_id`] cannot be read back: it is not
/// a named state, or it has no entry `"data"`, or its entry `"id"` is not an
/// identifier.
pub open spec fn wrapper_error<E>(state: State<E>) -> Seq<char> {
    match state {
        State::StateNamed(w) => if named_lookup(w.values@, "data"@) is None {
            "Can't load state data"@
        } else {
            "Can't load state id"@
        },
        _ => "Can't load state wrapper to fetch id and data"@,
    }
}

/// The identifier and the data of a state written by [`state_with_id`].
pub fn load_with_id<E>(state: &State<E>) -> (r: Result<(&ParamId, &State<E>), LoadingError>)
    ensures
        match r {
            Ok((id, s)) => split_with_id(*state) == Some((id.value@, *s)),
            Err(e) => split_with_id(*state) is None && e.message@ == wrapper_error(*state),
        },
{
    let state_wrapper = match state {
        State::StateNamed(s) => s,
        _ => {
            return Err(
                LoadingError { message: "Can't load state wrapper to fetch id and data".to_owned() },
            );
        },
    };
    let state = match state_wrapper.get(&"data".to_owned()) {
        Some(s) => s,
        None => {
            return Err(LoadingError { message: "Can't load state data".to_owned() });
        },
    };
    let id = match state_wrapper.get(&"id".to_owned()) {
        Some(State::ParamId(param_id)) => param_id,
        _ => {
            return Err(LoadingError { message: "Can't load state id".to_owned() });
        },
    };
    Ok((id, state))
}

/// The named states an optimizer loads its state from: an optimizer state
/// must hold named states.
pub fn optim_state_named<E>(state: &State<E>) -> (r: Result<&StateNamed<E>, LoadingError>)
    ensures
        state is StateNamed <==> r is Ok,
        r matches Ok(s) ==> *state == State::StateNamed(*s),
        r matches Err(e) ==> e.message@ == "Can't load state wrapper to fetch id and data"@,
{
    match state {
        State::StateNamed(s) => Ok(s),
        _ => Err(
            LoadingError { message: "Can't load state wrapper to fetch id and data".to_owned() },
        ),
    }
}

/// The data of a state, when it holds data.
pub open spec fn data_of<E>(state: State<E>) -> Option<(Seq<E>, Seq<usize>)> {
    match state {
        State::Data(d) => Some((d.value@, d.shape@)),
        _ => None,
    }
}

/// The state of a parameter with identifier `id` and, when it has one, a
/// tensor with the given values and shape.
pub open spec fn state_holds<E>(
    state: State<E>,
    id: Seq<char>,
    data: Option<(Seq<E>, Seq<usize>)>,
) -> bool {
    split_with_id(state) matches Some((i, s)) && i == id && data_of(s) == data
}

/// What loading `state` does to a parameter with identifier `id` and tensor
/// `t`: whether it succeeds, the identifier after, the tensor after.
pub open spec fn loaded<E>(state: State<E>, id: Seq<char>, t: TensorView<E>) -> (
    bool,
    Seq<char>,
    TensorView<E>,
) {
    match split_with_id(state) {
        None => (false, id, t),
        Some((new_id, s)) => match data_of(s) {
            Some((values, shape)) => (true, new_id, TensorView { shape, values, device: t.device }),
            None => (false, new_id, t),
        },
    }
}

/// The view of an optional tensor.
pub open spec fn view_opt<E>(t: Option<Tensor<E>>) -> Option<TensorView<E>> {
    match t {
        Some(u) => Some(u@),
        None => None,
    }
}

/// What loading `state` does to a parameter with identifier `id` and
/// optional tensor `t`: a parameter without a tensor stays without one.
pub open spec fn loaded_opt<E>(state: State<E>, id: Seq<char>, t: Option<TensorView<E>>) -> (
    bool,
    Seq<char>,
    Option<TensorView<E>>,
) {
    match split_with_id(state) {
        None => (false, id, t),
        Some((new_id, s)) => match data_of(s) {
            Some((values, shape)) => (
                true,
                new_id,
                match t {
                    Some(u) => Some(TensorView { shape, values, device: u.device }),
                    None => None,
                },
            ),
            None => (false, new_id, t),
        },
    }
}

/// What an optimizer does parameter by parameter: update a tensor with its
/// gradients, and register or load the optimizer's state for a parameter.
/// Each method's effect is named by a specification function of the
/// optimizer.
pub trait ParamOptimizer<E, G>: Sized {
    /// The tensor an update gives the parameter `id` whose tensor is `tensor`.
    spec fn updated(&self, id: Seq<char>, tensor: TensorView<E>, grads: G) -> TensorView<E>;

    /// The optimizer after that update.
    spec fn after_update(&self, id: Seq<char>, tensor: TensorView<E>, grads: G) -> Self;

    /// The named states after the parameter `id` registered its state in
    /// `states`.
    spec fn registered(&self, id: Seq<char>, states: Seq<NamedState<E>>) -> Seq<NamedState<E>>;

    /// The optimizer after loading the state of the parameter `id` from
    /// `states`, for a tensor on `device`.
    spec fn after_load(&self, id: Seq<char>, states: Seq<NamedState<E>>, device: Device) -> Self;

    /// Update the tensor of the parameter `id` with the gradients.
    fn update(&mut self, id: &ParamId, tensor: &mut Tensor<E>, grads: &G)
        ensures
            final(tensor)@ == old(self).updated(id.value@, old(tensor)@, *grads),
            *final(self) == old(self).after_update(id.value@, old(tensor)@, *grads),
    ;

    /// Register the optimizer state of the parameter `id`.
    fn register_param_state(&self, id: &ParamId, state: &mut StateNamed<E>)
        ensures
            final(state).values@ == self.registered(id.value@, old(state).values@),
    ;

    /// Load the optimizer state of the parameter `id`, whose tensor is on
    /// `device`.
    fn load_param_state(&mut self, id: &ParamId, state: &StateNamed<E>, device: &Device)
        ensures
            *final(self) == old(self).after_load(id.value@, state.values@, *device),
    ;
}

impl<E: Copy> Param<Tensor<E>> {
    /// The number of values of the parameter.
    pub fn num_params(&self) -> (r: usize)
        requires
            shape_fits(self.value.shape@),
        ensures
            r == shape_size(self.value.shape@),
    {
        num_elements(&self.value.shape)
    }

    /// The devices of the parameter: its tensor's.
    pub fn devices(&self) -> (r: Vec<Device>)
        ensures
            r@ == seq![self.value.device],
    {
        let mut r: Vec<Device> = Vec::new();
        r.push(self.value.device());
        r
    }

    /// Move the parameter to a device.
    pub fn to_device(&mut self, device: Device)
        ensures
            final(self).id == old(self).id,
            final(self).value@ == (TensorView { device, ..old(self).value@ }),
    {
        let mut value = Tensor { shape: Vec::new(), values: Vec::new(), device };
        std::mem::swap(&mut value, &mut self.value);
        self.value = value.to_device(device);
    }

    /// The state of the parameter: its data, with its identifier.
    pub fn state(&self) -> (r: State<E>)
        ensures
            state_holds(r, self.id.value@, Some((self.value.values@, self.value.shape@))),
    {
        let state = State::Data(self.value.to_data());
        state_with_id(copy_id(&self.id), state)
    }

    /// Load a state written by [`Param::state`]: the identifier, then the
    /// data, which keeps the parameter's device. A state that holds an
    /// identifier but no data leaves the identifier loaded.
    pub fn load(&mut self, state: &State<E>) -> (r: Result<(), LoadingError>)
        ensures
            (r is Ok, final(self).id.value@, final(self).value@) == loaded(
                *state,
                old(self).id.value@,
                old(self).value@,
            ),
            r matches Err(e) ==> e.message@ == match split_with_id(*state) {
                None => wrapper_error(*state),
                Some(_) => "Can't load tensor"@,
            },
    {
        let (id, state) = match load_with_id(state) {
            Ok(v) => v,
            Err(e) => {
                return Err(e);
            },
        };
        self.id = copy_id(id);

        match state {
            State::Data(data) => {
                let data = Data { value: copy_vec(&data.value), shape: copy_vec(&data.shape) };
                self.value = Tensor::from_data_device(data, self.value.device);
            },
            _ => {
                return Err(LoadingError { message: "Can't load tensor".to_owned() });
            },
        };

        Ok(())
    }
    /// The parameter on the inner backend: the same tensor, with the
    /// identifier of a new parameter. New identifiers are drawn at random,
    /// so the caller passes the one drawn.
    pub fn inner(&self, id: ParamId) -> (r: Param<Tensor<E>>)
        ensures
            r.id == id,
            r.value@ == self.value@,
    {
        Param { id, value: self.value.duplicate() }
    }

    /// Update the tensor with the gradients, as the optimizer does for this
    /// parameter.
    pub fn update_params<G, O: ParamOptimizer<E, G>>(&mut self, grads: &G, optim: &mut O)
        ensures
            final(self).id == old(self).id,
            final(self).value@ == old(optim).updated(old(self).id.value@, old(self).value@, *grads),
            *final(optim) == old(optim).after_update(old(self).id.value@, old(self).value@, *grads),
    {
        optim.update(&self.id, &mut self.value, grads);
    }

    /// Load the optimizer's state for this parameter, on its tensor's device.
    pub fn load_optim_state<G, O: ParamOptimizer<E, G>>(&self, optim: &mut O, state_optim: &StateNamed<E>)
        ensures
            *final(optim) == old(optim).after_load(self.id.value@, state_optim.values@, self.value.device),
    {
        optim.load_param_state(&self.id, state_optim, &self.value.device());
    }

    /// Register the optimizer's state for this parameter.
    pub fn register_optim_state<G, O: ParamOptimizer<E, G>>(&self, optim: &O, state_optim: &mut StateNamed<E>)
        ensures
            final(state_optim).values@ == optim.registered(self.id.value@, old(state_optim).values@),
    {
        optim.register_param_state(&self.id, state_optim);
    }
}


impl<E: Copy> Param<Option<Tensor<E>>> {
    /// The number of values of the parameter; none without a tensor.
    pub fn num_params(&self) -> (r: usize)
        requires
            self.value matches Some(t) ==> shape_fits(t.shape@),
        ensures
            r == match self.value {
                Some(t) => shape_size(t.shape@),
                None => 0,
            },
    {
        if let Some(value) = &self.value {
            return num_elements(&value.shape);
        }
        0
    }

    /// The devices of the parameter: its tensor's, if it has one.
    pub fn devices(&self) -> (r: Vec<Device>)
        ensures
            r@ == match self.value {
                Some(t) => seq![t.device],
                None => Seq::<Device>::empty(),
            },
    {
        if let Some(value) = &self.value {
            let mut r: Vec<Device> = Vec::new();
            r.push(value.device());
            return r;
        }
        Vec::new()
    }

    /// Move the tensor, if any, to a device.
    pub fn to_device(&mut self, device: Device)
        ensures
            final(self).id == old(self).id,
            match old(self).value {
                Some(t) => final(self).value matches Some(u) && u@ == (TensorView { device, ..t@ }),
                None => final(self).value is None,
            },
    {
        if let Some(value) = &self.value {
            let moved = value.duplicate().to_device(device);
            self.value = Some(moved);
        }
    }

    /// The state of the parameter: its data, or no named state without a
    /// tensor, with its identifier.
    pub fn state(&self) -> (r: State<E>)
        ensures
            state_holds(
                r,
                self.id.value@,
                match self.value {
                    Some(t) => Some((t.values@, t.shape@)),
                    None => None,
                },
            ),
            self.value is None ==> (split_with_id(r) matches Some((_, State::StateNamed(w)))
                && w.values@.len() == 0),
    {
        let state = match &self.value {
            Some(value) => State::Data(value.to_data()),
            None => State::StateNamed(StateNamed::new()),
        };
        state_with_id(copy_id(&self.id), state)
    }

    /// Load a state written by [`Param::state`]: the identifier, then the
    /// data when the parameter has a tensor (a parameter without a tensor
    /// stays without one).
    pub fn load(&mut self, state: &State<E>) -> (r: Result<(), LoadingError>)
        ensures
            (r is Ok, final(self).id.value@, view_opt(final(self).value)) == loaded_opt(
                *state,
                old(self).id.value@,
                view_opt(old(self).value),
            ),
            r matches Err(e) ==> e.message@ == match split_with_id(*state) {
                None => wrapper_error(*state),
                Some(_) => "Can't load Option<Tensor> from NamedState"@,
            },
    {
        let (id, state) = match load_with_id(state) {
            Ok(v) => v,
            Err(e) => {
                return Err(e);
            },
        };
        self.id = copy_id(id);

        let data = match state {
            State::Data(data) => data,
            _ => {
                return Err(
                    LoadingError { message: "Can't load Option<Tensor> from NamedState".to_owned() },
                );
            },
        };

        if let Some(value) = &self.value {
            let data = Data { value: copy_vec(&data.value), shape: copy_vec(&data.shape) };
            self.value = Some(Tensor::from_data_device(data, value.device));
        }
        Ok(())
    }

    /// The parameter on the inner backend: the same tensor, if any, with the
    /// identifier of a new parameter, which the caller passes.
    pub fn inner(&self, id: ParamId) -> (r: Param<Option<Tensor<E>>>)
        ensures
            r.id == id,
            view_opt(r.value) == view_opt(self.value),
    {
        match &self.value {
            Some(tensor) => Param { id, value: Some(tensor.duplicate()) },
            None => Param { id, value: None },
        }
    }

    /// Update the tensor, if any, with the gradients, as the optimizer does
    /// for this parameter; without a tensor nothing changes.
    pub fn update_params<G, O: ParamOptimizer<E, G>>(&mut self, grads: &G, optim: &mut O)
        ensures
            final(self).id == old(self).id,
            match old(self).value {
                Some(t) => final(self).value matches Some(u) && u@ == old(optim).updated(
                    old(self).id.value@,
                    t@,
                    *grads,
                ) && *final(optim) == old(optim).after_update(old(self).id.value@, t@, *grads),
                None => final(self).value is None && *final(optim) == *old(optim),
            },
    {
        if let Some(value) = &mut self.value {
            optim.update(&self.id, value, grads);
        }
    }

    /// Load the optimizer's state for this parameter, on its tensor's
    /// device; without a tensor nothing is loaded.
    pub fn load_optim_state<G, O: ParamOptimizer<E, G>>(&self, optim: &mut O, state_optim: &StateNamed<E>)
        ensures
            match self.value {
                Some(t) => *final(optim) == old(optim).after_load(self.id.value@, state_optim.values@, t.device),
                None => *final(optim) == *old(optim),
            },
    {
        if let Some(value) = &self.value {
            optim.load_param_state(&self.id, state_optim, &value.device());
        }
    }

    /// Register the optimizer's state for this parameter; without a tensor
    /// nothing is registered.
    pub fn register_optim_state<G, O: ParamOptimizer<E, G>>(&self, optim: &O, state_optim: &mut StateNamed<E>)
        ensures
            match self.value {
                Some(_) => final(state_optim).values@ == optim.registered(
                    self.id.value@,
                    old(state_optim).values@,
                ),
                None => final(state_optim).values@ == old(state_optim).values@,
            },
    {
        if let Some(_) = &self.value {
            optim.register_param_state(&self.id, state_optim);
        }
    }
}

/// Loading the state of a parameter with a tensor into a parameter succeeds
/// and gives it that identifier and that tensor's values and shape, on its
/// own device.
pub proof fn law_load_state<E>(
    state: State<E>,
    id: Seq<char>,
    values: Seq<E>,
    shape: Seq<usize>,
    old_id: Seq<char>,
    t: TensorView<E>,
)
    requires
        state_holds(state, id, Some((values, shape))),
    ensures
        loaded(state, old_id, t) == (true, id, TensorView { shape, values, device: t.device }),
{
}

/// Loading the state of a parameter into one with an optional tensor gives
/// it that identifier; it succeeds when the state holds a tensor, and then a
/// parameter with a tensor takes its values and shape.
pub proof fn law_load_state_opt<E>(
    state: State<E>,
    id: Seq<char>,
    data: Option<(Seq<E>, Seq<usize>)>,
    old_id: Seq<char>,
    t: Option<TensorView<E>>,
)
    requires
        state_holds(state, id, data),
    ensures
        loaded_opt(state, old_id, t) == match data {
            Some((values, shape)) => (
                true,
                id,
                match t {
                    Some(u) => Some(TensorView { shape, values, device: u.device }),
                    None => None,
                },
            ),
            None => (false, id, t),
        },
{
}

} // verus!
