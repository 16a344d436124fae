use vstd::prelude::*;
use crate::id::{NodeId, Pod};
use crate::message::MessageResult;

verus! {

/// What a driver is handed while it answers an action: the root live node,
/// to itself for as long as the answer takes.
pub struct DriverCtx<'a> {
    pub main_root_widget: &'a mut Pod,
}

/// The application's side of the loop: it is told of each action that the
/// views produce.
pub trait AppDriver<A> {
    /// This driver is `before` after it was told of the action `action` that
    /// the live node `widget_id` gave rise to.
    spec fn told(&self, before: &Self, widget_id: NodeId, action: A) -> bool;

    /// Answers the action `action` that the live node `widget_id` gave rise to.
    fn on_action(&mut self, ctx: &mut DriverCtx<'_>, widget_id: NodeId, action: A)
        ensures
            final(self).told(old(self), widget_id, action),
    ;
}

impl<'a> DriverCtx<'a> {
    /// The root live node, to read and to change.
    pub fn get_root(&mut self) -> (root: &mut Pod)
        ensures
            *root == *old(self).main_root_widget,
            *final(self).main_root_widget == *final(root),
            *final(final(self).main_root_widget) == *final(old(self).main_root_widget),
    {
        &mut *self.main_root_widget
    }
}

/// Hands the outcome of a delivery on to the driver and says whether the
/// views have to be rebuilt.
///
/// An action goes to the driver, together with the context and the live node
/// it came from, and a rebuild follows. A request for a rebuild is granted
/// without a word to the driver. A message that was taken without
/// consequence, or that found its view gone, is dropped: the driver hears
/// nothing and nothing is rebuilt.
pub fn dispatch<A, D: AppDriver<A>>(
    driver: &mut D,
    ctx: &mut DriverCtx<'_>,
    widget_id: NodeId,
    result: MessageResult<A>,
) -> (rebuild: bool)
    ensures
        rebuild == (result is Action || result is RequestRebuild),
        result matches MessageResult::Action(action) ==> final(driver).told(
            old(driver),
            widget_id,
            action,
        ),
        !(result is Action) ==> *final(driver) == *old(driver) && *final(ctx) == *old(ctx),
{
    match result {
        MessageResult::Action(action) => {
            driver.on_action(ctx, widget_id, action);
            true
        },
        MessageResult::RequestRebuild => true,
        MessageResult::Nop => false,
        MessageResult::Stale => false,
    }
}

} // verus!
