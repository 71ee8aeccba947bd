//! Choosing a window manager protocol, and the decisions of the protocol
//! adapters that do not touch a socket.
use vstd::prelude::*;
use crate::text::{parse_i32, signed_decimal};

verus! {

/// A protocol to use, and no other.
#[derive(Debug, Clone, Copy, PartialEq, Eq, Structural)]
pub enum EnforceWindowManager {
    SwayOrI3,
    Hyprland,
}

/// The protocols the library speaks.
#[derive(Debug, Clone, Copy, PartialEq, Eq, Structural)]
pub enum Backend {
    /// The tree/event-subscribe protocol of Sway and i3.
    SwayOrI3,
    /// The hook/poll protocol of Hyprland.
    Hyprland,
}

/// The backends to try, in order: the forced one alone, else all of them in
/// the fixed order of preference.
pub open spec fn candidates(enforce: Option<EnforceWindowManager>) -> Seq<Backend> {
    match enforce {
        Some(EnforceWindowManager::SwayOrI3) => seq![Backend::SwayOrI3],
        Some(EnforceWindowManager::Hyprland) => seq![Backend::Hyprland],
        None => seq![Backend::SwayOrI3, Backend::Hyprland],
    }
}

/// `enforce` leaves `b` free to be tried.
pub open spec fn allowed(enforce: Option<EnforceWindowManager>, b: Backend) -> bool {
    match enforce {
        Some(EnforceWindowManager::SwayOrI3) => b == Backend::SwayOrI3,
        Some(EnforceWindowManager::Hyprland) => b == Backend::Hyprland,
        None => true,
    }
}

/// The backends to try, in order.
pub fn connect_order(enforce: Option<EnforceWindowManager>) -> (r: Vec<Backend>)
    ensures
        r@ == candidates(enforce),
{
    match enforce {
        Some(EnforceWindowManager::SwayOrI3) => vec![Backend::SwayOrI3],
        Some(EnforceWindowManager::Hyprland) => vec![Backend::Hyprland],
        None => vec![Backend::SwayOrI3, Backend::Hyprland],
    }
}

/// Whether a connection to `b` may be made under `enforce`.
pub fn permits(enforce: Option<EnforceWindowManager>, b: Backend) -> (r: bool)
    ensures
        r == allowed(enforce, b),
{
    match enforce {
        Some(EnforceWindowManager::SwayOrI3) => b == Backend::SwayOrI3,
        Some(EnforceWindowManager::Hyprland) => b == Backend::Hyprland,
        None => true,
    }
}

/// The command that renames workspace `old` to `new`.
pub open spec fn rename_command_text(old: Seq<char>, new: Seq<char>) -> Seq<char> {
    "rename workspace \""@ + old + "\" to \""@ + new + "\""@
}

/// The command of the tree/event-subscribe protocol that renames workspace
/// `old` to `new`.
pub fn rename_command(old: &str, new: &str) -> (r: String)
    ensures
        r@ == rename_command_text(old@, new@),
{
    let mut r = String::from_str("rename workspace \"");
    r.append(old);
    r.append("\" to \"");
    r.append(new);
    r.append("\"");
    r
}

/// The outcome of a command with several sub-results: the first failure,
/// or success when every sub-result succeeded.
pub fn first_failure<E>(results: Vec<Result<(), E>>) -> (r: Result<(), E>)
    ensures
        r is Ok <==> forall|i: int| 0 <= i < results.len() ==> (#[trigger] results[i]) is Ok,
        r matches Err(e) ==> exists|i: int|
            0 <= i < results.len() && results[i] == Err::<(), E>(e) && forall|j: int|
                0 <= j < i ==> (#[trigger] results[j]) is Ok,
{
    let ghost all = results@;
    let mut rest = results;
    let ghost mut done: int = 0;
    while rest.len() > 0
        invariant
            0 <= done <= all.len(),
            all == results@,
            rest@ == all.subrange(done, all.len() as int),
            forall|j: int| 0 <= j < done ==> (#[trigger] all[j]) is Ok,
        decreases rest.len(),
    {
        let ghost before = rest@;
        match rest.remove(0) {
            Ok(()) => {
                proof {
                    assert(all[done] == before[0]);
                    done = done + 1;
                    assert(rest@ =~= all.subrange(done, all.len() as int));
                }
            },
            Err(e) => {
                proof {
                    assert(all[done] == before[0]);
                    assert(all[done] == Err::<(), E>(e));
                    assert(!(all[done] is Ok));
                }
                return Err(e);
            },
        }
    }
    proof {
        assert(done == all.len());
    }
    Ok(())
}

/// The identifier of a workspace of the hook/poll protocol, from its name;
/// `None` when the name is no decimal number that fits an `i32`.
pub fn workspace_id(name: &str) -> (r: Option<i32>)
    ensures
        r matches Some(n) ==> signed_decimal(name@) == Some(n as int),
        r is None ==> !(signed_decimal(name@) matches Some(v) && i32::MIN <= v <= i32::MAX),
{
    parse_i32(name)
}

} // verus!
