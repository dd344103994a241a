//! Input action states and their per-frame transitions, plus a
//! registry of named actions. Polling the keyboard or a gamepad is the
//! driver's job; the decisions — how a state advances on the evidence
//! polled — live here.

use vstd::prelude::*;

verus! {

/// The state of one action binding across frames.
#[derive(Clone, Copy, PartialEq, Eq, Structural, Debug)]
pub enum ActionState {
    Down,
    Pressed,
    Released,
    Up,
}

/// Next state of a key binding given this frame's key evidence: a key
/// reported freshly pressed wins, a held key reads as down, and a
/// silent key releases a held state once before resting up.
pub open spec fn spec_key_transition(prev: ActionState, pressed: bool, down: bool) -> ActionState {
    if pressed {
        ActionState::Pressed
    } else if down {
        ActionState::Down
    } else {
        match prev {
            ActionState::Down => ActionState::Released,
            ActionState::Pressed => ActionState::Released,
            _ => ActionState::Up,
        }
    }
}

/// Next state of a gamepad-button binding: edge states settle first
/// (pressed becomes down, released becomes up); then a button-change
/// event, when one arrived, presses or releases outright.
pub open spec fn spec_pad_button_transition(prev: ActionState, event: Option<bool>) -> ActionState {
    let settled = match prev {
        ActionState::Pressed => ActionState::Down,
        ActionState::Released => ActionState::Up,
        other => other,
    };
    match event {
        Option::None => settled,
        Option::Some(engaged) => if engaged {
            ActionState::Pressed
        } else {
            ActionState::Released
        },
    }
}

/// Next state of a gamepad-axis binding: edge states settle first;
/// then an axis event past the dead zone presses (or keeps holding),
/// and one inside it releases (or keeps resting).
pub open spec fn spec_pad_axis_transition(prev: ActionState, event: Option<bool>) -> ActionState {
    let settled = match prev {
        ActionState::Pressed => ActionState::Down,
        ActionState::Released => ActionState::Up,
        other => other,
    };
    match event {
        Option::None => settled,
        Option::Some(engaged) => if engaged {
            match settled {
                ActionState::Pressed => ActionState::Down,
                _ => ActionState::Pressed,
            }
        } else {
            match settled {
                ActionState::Released => ActionState::Up,
                _ => ActionState::Released,
            }
        },
    }
}

/// Key-binding transition, executable.
pub fn key_transition(prev: ActionState, pressed: bool, down: bool) -> (r: ActionState)
    ensures
        r == spec_key_transition(prev, pressed, down),
{
    if pressed {
        ActionState::Pressed
    } else if down {
        ActionState::Down
    } else {
        match prev {
            ActionState::Down => ActionState::Released,
            ActionState::Pressed => ActionState::Released,
            _ => ActionState::Up,
        }
    }
}

/// Gamepad-button transition, executable.
pub fn pad_button_transition(prev: ActionState, event: Option<bool>) -> (r: ActionState)
    ensures
        r == spec_pad_button_transition(prev, event),
{
    let settled = match prev {
        ActionState::Pressed => ActionState::Down,
        ActionState::Released => ActionState::Up,
        other => other,
    };
    match event {
        Option::None => settled,
        Option::Some(engaged) => if engaged {
            ActionState::Pressed
        } else {
            ActionState::Released
        },
    }
}

/// Gamepad-axis transition, executable.
pub fn pad_axis_transition(prev: ActionState, event: Option<bool>) -> (r: ActionState)
    ensures
        r == spec_pad_axis_transition(prev, event),
{
    let settled = match prev {
        ActionState::Pressed => ActionState::Down,
        ActionState::Released => ActionState::Up,
        other => other,
    };
    match event {
        Option::None => settled,
        Option::Some(engaged) => if engaged {
            match settled {
                ActionState::Pressed => ActionState::Down,
                _ => ActionState::Pressed,
            }
        } else {
            match settled {
                ActionState::Released => ActionState::Up,
                _ => ActionState::Released,
            }
        },
    }
}

/// One named action: any of its bindings' states counting for it.
pub struct ActionEntry {
    pub name: String,
    pub states: Vec<ActionState>,
}

/// Registry of named actions; each action holds the states of its
/// bindings, and the driver advances them through the transition
/// functions.
pub struct Actions {
    entries: Vec<ActionEntry>,
}

/// The model of an action registry: each action's name with its
/// binding states.
pub ghost struct ActionsM {
    pub name: Seq<char>,
    pub states: Seq<ActionState>,
}

impl View for ActionEntry {
    type V = ActionsM;

    open spec fn view(&self) -> ActionsM {
        ActionsM { name: self.name@, states: self.states@ }
    }
}

impl View for Actions {
    type V = Seq<ActionsM>;

    closed spec fn view(&self) -> Seq<ActionsM> {
        self.entries@.map_values(|e: ActionEntry| e@)
    }
}

/// A state counts as held down.
pub open spec fn spec_is_down(s: ActionState) -> bool {
    s == ActionState::Down || s == ActionState::Pressed
}

/// A state counts as released or resting.
pub open spec fn spec_is_released(s: ActionState) -> bool {
    s == ActionState::Up || s == ActionState::Released
}

/// Some binding of some action carrying the name satisfies the
/// predicate; false when the name is absent.
pub open spec fn spec_any_state(
    reg: Seq<ActionsM>, name: Seq<char>, pred: spec_fn(ActionState) -> bool,
) -> bool {
    exists|i: int, j: int|
        0 <= i < reg.len() && reg[i].name == name && 0 <= j < reg[i].states.len() && pred(
            #[trigger] reg[i].states[j],
        )
}

impl Actions {
    pub fn new() -> (r: Actions)
        ensures
            r@ == Seq::<ActionsM>::empty(),
    {
        let a = Actions { entries: Vec::new() };
        proof {
            assert(a@ =~= Seq::<ActionsM>::empty());
        }
        a
    }

    /// Drop every registered action.
    pub fn clear(&mut self)
        ensures
            final(self)@ == Seq::<ActionsM>::empty(),
    {
        self.entries.clear();
        proof {
            assert(self@ =~= Seq::<ActionsM>::empty());
        }
    }

    pub fn num_actions(&self) -> (r: usize)
        ensures
            r == self@.len(),
    {
        self.entries.len()
    }

    pub fn num_bindings(&self, i: usize) -> (r: usize)
        requires
            i < self@.len(),
        ensures
            r == self@[i as int].states.len(),
    {
        self.entries[i].states.len()
    }

    /// The state of one binding of one action.
    pub fn get_state(&self, i: usize, j: usize) -> (r: ActionState)
        requires
            i < self@.len(),
            j < self@[i as int].states.len(),
        ensures
            r == self@[i as int].states[j as int],
    {
        self.entries[i].states[j]
    }

    /// Replace the state of one binding; the driver calls this with
    /// the output of a transition function.
    pub fn set_state(&mut self, i: usize, j: usize, s: ActionState)
        requires
            i < old(self)@.len(),
            j < old(self)@[i as int].states.len(),
        ensures
            final(self)@ == old(self)@.update(
                i as int,
                ActionsM {
                    states: old(self)@[i as int].states.update(j as int, s),
                    ..old(self)@[i as int]
                },
            ),
    {
        let ghost gv = self@;
        let mut entry: ActionEntry = ActionEntry { name: String::new(), states: Vec::new() };
        core::mem::swap(&mut entry, &mut self.entries[i]);
        entry.states[j] = s;
        let ghost em = entry@;
        self.entries[i] = entry;
        proof {
            assert(self@ =~= gv.update(
                i as int,
                ActionsM { states: gv[i as int].states.update(j as int, s), ..gv[i as int] },
            ));
        }
    }

    /// Register a binding under a name, creating the action if the
    /// name is new; every binding starts in the resting state. Returns
    /// the action and binding indices for the driver to poll with.
    pub fn add_action(&mut self, name: &str) -> (r: (usize, usize))
        requires
            old(self)@.len() < usize::MAX,
        ensures
            ({
                let (i, j) = r;
                if exists|k: int| 0 <= k < old(self)@.len() && old(self)@[k].name == name@ {
                    &&& 0 <= i < old(self)@.len()
                    &&& old(self)@[i as int].name == name@
                    &&& j == old(self)@[i as int].states.len()
                    &&& final(self)@ == old(self)@.update(
                        i as int,
                        ActionsM {
                            states: old(self)@[i as int].states.push(ActionState::Up),
                            ..old(self)@[i as int]
                        },
                    )
                } else {
                    &&& i == old(self)@.len()
                    &&& j == 0
                    &&& final(self)@ == old(self)@.push(
                        ActionsM { name: name@, states: seq![ActionState::Up] },
                    )
                }
            }),
    {
        let key: String = name.to_owned();
        let n: usize = self.entries.len();
        let mut i: usize = 0;
        while i < n
            invariant
                self@ == old(self)@,
                n == self@.len(),
                n == self.entries@.len(),
                n < usize::MAX,
                key@ == name@,
                i <= n,
                forall|k: int| 0 <= k < i ==> self@[k].name != name@,
            decreases n - i,
        {
            proof {
                assert(self@[i as int] == self.entries@[i as int]@);
            }
            if self.entries[i].name == key {
                let ghost gv = self@;
                let j: usize = self.entries[i].states.len();
                let mut entry: ActionEntry = ActionEntry {
                    name: String::new(),
                    states: Vec::new(),
                };
                core::mem::swap(&mut entry, &mut self.entries[i]);
                entry.states.push(ActionState::Up);
                self.entries[i] = entry;
                proof {
                    assert(gv == old(self)@);
                    assert(gv[i as int].name == name@);
                    assert(exists|k: int|
                        0 <= k < old(self)@.len() && old(self)@[k].name == name@);
                    assert(self@ =~= gv.update(
                        i as int,
                        ActionsM {
                            states: gv[i as int].states.push(ActionState::Up),
                            ..gv[i as int]
                        },
                    ));
                }
                return (i, j);
            }
            i = i + 1;
        }
        let ghost gv = self@;
        let mut states: Vec<ActionState> = Vec::new();
        states.push(ActionState::Up);
        self.entries.push(ActionEntry { name: key, states });
        proof {
            assert(self@ =~= gv.push(ActionsM { name: name@, states: seq![ActionState::Up] }));
        }
        (n, 0)
    }

    /// Some binding of the named action is pressed or held down.
    pub fn is_action_down(&self, name: &str) -> (r: bool)
        ensures
            r == spec_any_state(self@, name@, |s: ActionState| spec_is_down(s)),
    {
        self.any_state_scan(name, 0)
    }

    /// Some binding of the named action was pressed this frame.
    pub fn is_action_just_pressed(&self, name: &str) -> (r: bool)
        ensures
            r == spec_any_state(self@, name@, |s: ActionState| s == ActionState::Pressed),
    {
        self.any_state_scan(name, 1)
    }

    /// Some binding of the named action is resting or was released.
    pub fn is_action_released(&self, name: &str) -> (r: bool)
        ensures
            r == spec_any_state(self@, name@, |s: ActionState| spec_is_released(s)),
    {
        self.any_state_scan(name, 2)
    }

    /// Some binding of the named action was released this frame.
    pub fn is_action_just_released(&self, name: &str) -> (r: bool)
        ensures
            r == spec_any_state(self@, name@, |s: ActionState| s == ActionState::Released),
    {
        self.any_state_scan(name, 3)
    }

    /// The predicate each query mode tests on a binding state.
    pub open spec fn spec_mode_pred(mode: u8) -> spec_fn(ActionState) -> bool {
        if mode == 0 {
            |s: ActionState| spec_is_down(s)
        } else if mode == 1 {
            |s: ActionState| s == ActionState::Pressed
        } else if mode == 2 {
            |s: ActionState| spec_is_released(s)
        } else {
            |s: ActionState| s == ActionState::Released
        }
    }

    /// Whether one state satisfies a query mode.
    fn mode_test(mode: u8, s: ActionState) -> (r: bool)
        ensures
            r == Actions::spec_mode_pred(mode)(s),
    {
        match mode {
            0u8 => match s {
                ActionState::Down => true,
                ActionState::Pressed => true,
                _ => false,
            },
            1u8 => match s {
                ActionState::Pressed => true,
                _ => false,
            },
            2u8 => match s {
                ActionState::Up => true,
                ActionState::Released => true,
                _ => false,
            },
            _ => match s {
                ActionState::Released => true,
                _ => false,
            },
        }
    }

    /// Scan every binding of every action carrying the name for a
    /// state satisfying the query mode.
    fn any_state_scan(&self, name: &str, mode: u8) -> (r: bool)
        ensures
            r == spec_any_state(self@, name@, Actions::spec_mode_pred(mode)),
    {
        let key: String = name.to_owned();
        let n: usize = self.entries.len();
        let mut i: usize = 0;
        while i < n
            invariant
                n == self@.len(),
                n == self.entries@.len(),
                key@ == name@,
                i <= n,
                forall|k: int, j: int|
                    0 <= k < i && self@[k].name == name@ && 0 <= j < self@[k].states.len()
                        ==> !Actions::spec_mode_pred(mode)(#[trigger] self@[k].states[j]),
            decreases n - i,
        {
            proof {
                assert(self@[i as int] == self.entries@[i as int]@);
            }
            if self.entries[i].name == key {
                let m: usize = self.entries[i].states.len();
                let mut j: usize = 0;
                while j < m
                    invariant
                        n == self@.len(),
                        n == self.entries@.len(),
                        i < n,
                        m == self@[i as int].states.len(),
                        self@[i as int] == self.entries@[i as int]@,
                        self@[i as int].name == name@,
                        j <= m,
                        forall|t: int|
                            0 <= t < j ==> !Actions::spec_mode_pred(mode)(
                                #[trigger] self@[i as int].states[t],
                            ),
                    decreases m - j,
                {
                    let s: ActionState = self.entries[i].states[j];
                    if Actions::mode_test(mode, s) {
                        proof {
                            assert(Actions::spec_mode_pred(mode)(self@[i as int].states[j as int]));
                        }
                        return true;
                    }
                    j = j + 1;
                }
            }
            i = i + 1;
        }
        false
    }
}

} // verus!
