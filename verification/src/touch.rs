//! Which finger drives which on-screen control: the movement joystick,
//! the jump / mine / place buttons, or the look drag. Every control is
//! owned by at most one touch, claimed when a touch goes down inside it
//! and released when that touch lifts, so several fingers can work
//! different controls at once. Where a point lies is the caller's
//! (floating-point) business; this decides what follows from it.

use vstd::prelude::*;

verus! {

/// A touch identifier as the platform delivers it, stable for one
/// finger's contact.
pub type TouchId = u64;

/// The control a new touch went to.
#[derive(Debug, Clone, Copy, PartialEq, Eq, Structural)]
pub enum TouchTarget {
    Joystick,
    Jump,
    Mine,
    Place,
    Look,
    /// Every control it could take was taken.
    Unclaimed,
}

/// The touch holding each control, if any.
#[derive(Debug, Clone, Copy, PartialEq, Eq, Structural)]
pub struct TouchOwners {
    pub joystick: Option<u64>,
    pub jump: Option<u64>,
    pub mine: Option<u64>,
    pub place: Option<u64>,
    pub look: Option<u64>,
}

/// The owners after touch `id` went down inside the areas flagged, and
/// the control it took: the joystick first, then the buttons in order
/// (each only when free and hit), and otherwise the look drag when
/// free, wherever the touch is.
pub open spec fn touch_down_spec(
    o: TouchOwners,
    id: u64,
    in_joystick: bool,
    in_jump: bool,
    in_mine: bool,
    in_place: bool,
) -> (TouchOwners, TouchTarget) {
    if o.joystick is None && in_joystick {
        (TouchOwners { joystick: Some(id), ..o }, TouchTarget::Joystick)
    } else if o.jump is None && in_jump {
        (TouchOwners { jump: Some(id), ..o }, TouchTarget::Jump)
    } else if o.mine is None && in_mine {
        (TouchOwners { mine: Some(id), ..o }, TouchTarget::Mine)
    } else if o.place is None && in_place {
        (TouchOwners { place: Some(id), ..o }, TouchTarget::Place)
    } else if o.look is None {
        (TouchOwners { look: Some(id), ..o }, TouchTarget::Look)
    } else {
        (o, TouchTarget::Unclaimed)
    }
}

/// The owner of the control `t` names (`None` for `Unclaimed`).
pub open spec fn control_owner(o: TouchOwners, t: TouchTarget) -> Option<u64> {
    match t {
        TouchTarget::Joystick => o.joystick,
        TouchTarget::Jump => o.jump,
        TouchTarget::Mine => o.mine,
        TouchTarget::Place => o.place,
        TouchTarget::Look => o.look,
        TouchTarget::Unclaimed => None,
    }
}

/// Which control a touch going down takes, and what that does: it takes
/// the joystick when that is free and hit; else Jump, else Mine, else
/// Place, each when free and hit; else the look drag when that is free
/// (wherever the touch is); else nothing. The control it takes was free
/// and is now held by this touch, and every other control keeps its
/// owner; when it takes nothing, nothing changes.
pub proof fn lemma_touch_down_claims_the_hit_control(
    o: TouchOwners,
    id: u64,
    in_joystick: bool,
    in_jump: bool,
    in_mine: bool,
    in_place: bool,
)
    ensures
        ({
            let (n, t) = touch_down_spec(o, id, in_joystick, in_jump, in_mine, in_place);
            let joystick = o.joystick is None && in_joystick;
            let jump = o.jump is None && in_jump;
            let mine = o.mine is None && in_mine;
            let place = o.place is None && in_place;
            &&& (t == TouchTarget::Joystick <==> joystick)
            &&& (t == TouchTarget::Jump <==> !joystick && jump)
            &&& (t == TouchTarget::Mine <==> !joystick && !jump && mine)
            &&& (t == TouchTarget::Place <==> !joystick && !jump && !mine && place)
            &&& (t == TouchTarget::Look <==> !joystick && !jump && !mine && !place && o.look is None)
            &&& (t == TouchTarget::Unclaimed ==> n == o)
            &&& (t != TouchTarget::Unclaimed ==> control_owner(o, t) is None && control_owner(n, t)
                == Some(id))
            &&& forall|c: TouchTarget| c != t ==> #[trigger] control_owner(n, c) == control_owner(o, c)
        }),
{
}

/// A control's owner after touch `id` lifted.
pub open spec fn released(owner: Option<u64>, id: u64) -> Option<u64> {
    if owner == Some(id) {
        None
    } else {
        owner
    }
}

/// No touch owns two controls.
pub open spec fn owners_distinct(o: TouchOwners) -> bool {
    let s = seq![o.joystick, o.jump, o.mine, o.place, o.look];
    forall|i: int, j: int| 0 <= i < j < 5 && s[i] is Some ==> s[i] != s[j]
}

/// `id` owns no control.
pub open spec fn holds_nothing(o: TouchOwners, id: u64) -> bool {
    &&& o.joystick != Some(id)
    &&& o.jump != Some(id)
    &&& o.mine != Some(id)
    &&& o.place != Some(id)
    &&& o.look != Some(id)
}

fn release(owner: Option<u64>, id: u64) -> (r: Option<u64>)
    ensures
        r == released(owner, id),
{
    match owner {
        Some(held) => if held == id {
            None
        } else {
            owner
        },
        None => None,
    }
}

impl TouchOwners {
    /// No control held.
    pub fn new() -> (o: Self)
        ensures
            o == (TouchOwners { joystick: None, jump: None, mine: None, place: None, look: None }),
    {
        TouchOwners { joystick: None, jump: None, mine: None, place: None, look: None }
    }

    /// Touch `id` went down; the flags say which controls' areas hold
    /// the point. Returns the control it took.
    pub fn touch_down(
        &mut self,
        id: u64,
        in_joystick: bool,
        in_jump: bool,
        in_mine: bool,
        in_place: bool,
    ) -> (t: TouchTarget)
        ensures
            (*final(self), t) == touch_down_spec(*old(self), id, in_joystick, in_jump, in_mine, in_place),
    {
        if self.joystick.is_none() && in_joystick {
            self.joystick = Some(id);
            TouchTarget::Joystick
        } else if self.jump.is_none() && in_jump {
            self.jump = Some(id);
            TouchTarget::Jump
        } else if self.mine.is_none() && in_mine {
            self.mine = Some(id);
            TouchTarget::Mine
        } else if self.place.is_none() && in_place {
            self.place = Some(id);
            TouchTarget::Place
        } else if self.look.is_none() {
            self.look = Some(id);
            TouchTarget::Look
        } else {
            TouchTarget::Unclaimed
        }
    }

    /// Touch `id` lifted: every control it held is free again, the
    /// others keep their touches.
    pub fn touch_up(&mut self, id: u64)
        ensures
            final(self).joystick == released(old(self).joystick, id),
            final(self).jump == released(old(self).jump, id),
            final(self).mine == released(old(self).mine, id),
            final(self).place == released(old(self).place, id),
            final(self).look == released(old(self).look, id),
    {
        self.joystick = release(self.joystick, id);
        self.jump = release(self.jump, id);
        self.mine = release(self.mine, id);
        self.place = release(self.place, id);
        self.look = release(self.look, id);
    }
}

/// A new finger (one holding nothing yet) takes at most one control, so
/// no touch ever owns two controls.
pub proof fn lemma_touch_down_keeps_owners_distinct(
    o: TouchOwners,
    id: u64,
    in_joystick: bool,
    in_jump: bool,
    in_mine: bool,
    in_place: bool,
)
    requires
        owners_distinct(o),
        holds_nothing(o, id),
    ensures
        owners_distinct(touch_down_spec(o, id, in_joystick, in_jump, in_mine, in_place).0),
{
}

/// After a touch lifts it holds nothing, and distinct owners stay
/// distinct.
pub proof fn lemma_touch_up_releases(o: TouchOwners, id: u64)
    requires
        owners_distinct(o),
    ensures
        ({
            let n = TouchOwners {
                joystick: released(o.joystick, id),
                jump: released(o.jump, id),
                mine: released(o.mine, id),
                place: released(o.place, id),
                look: released(o.look, id),
            };
            holds_nothing(n, id) && owners_distinct(n)
        }),
{
}

} // verus!
