//! The client-local screen state machine and the reducer that applies
//! inbound network messages to it.
//!
//! Host and client each hold their own [`Screen`]; inbound messages are
//! drained in arrival order, each applied exactly once.  A `Load` message
//! force-transitions the client to `Loading`, overriding any in-flight
//! transition; a `ServerInfo` message replaces the cached roster verbatim;
//! `Loaded` is host-side only and leaves client state untouched.

use vstd::prelude::*;

use crate::protocol::{spec_decode, MessageData, MessageView, ProtocolError};

verus! {

/// Client-local UI/session state.  Created at process start in `MainMenu`.
#[derive(Clone, Copy, Debug, PartialEq, Eq, Structural)]
pub enum Screen {
    MainMenu,
    Server,
    Join,
    Loading,
    HostingGame,
    JoinedGame,
}

/// What one inbound message does to the screen and the cached roster.
pub open spec fn spec_apply_view(
    screen: Screen,
    roster: Seq<Seq<char>>,
    msg: MessageView,
) -> (Screen, Seq<Seq<char>>) {
    match msg {
        MessageView::Load => (Screen::Loading, roster),
        MessageView::Loaded => (screen, roster),
        MessageView::ServerInfo { players } => (screen, players),
    }
}

/// The same reduction, on a decoded message value.
pub open spec fn spec_apply_message(
    screen: Screen,
    roster: Seq<Seq<char>>,
    msg: MessageData,
) -> (Screen, Seq<Seq<char>>) {
    spec_apply_view(screen, roster, msg@)
}

/// The result of draining a queue of messages in arrival order.
pub open spec fn spec_apply_messages(
    screen: Screen,
    roster: Seq<Seq<char>>,
    msgs: Seq<MessageData>,
) -> (Screen, Seq<Seq<char>>)
    decreases msgs.len(),
{
    if msgs.len() == 0 {
        (screen, roster)
    } else {
        let stepped = spec_apply_message(screen, roster, msgs[0]);
        spec_apply_messages(stepped.0, stepped.1, msgs.drop_first())
    }
}

/// Apply one decoded message to the client's screen and cached roster.
pub fn apply_message(screen: &mut Screen, roster: &mut Vec<String>, msg: MessageData)
    ensures
        *final(screen) == spec_apply_message(*old(screen), old(roster).deep_view(), msg).0,
        final(roster).deep_view() == spec_apply_message(
            *old(screen),
            old(roster).deep_view(),
            msg,
        ).1,
{
    match msg {
        MessageData::Load => {
            *screen = Screen::Loading;
        },
        MessageData::Loaded => {},
        MessageData::ServerInfo { players } => {
            *roster = players;
        },
    }
}

/// Drain a queue of messages in arrival order, applying each exactly once.
pub fn apply_messages(screen: &mut Screen, roster: &mut Vec<String>, msgs: Vec<MessageData>)
    ensures
        *final(screen) == spec_apply_messages(*old(screen), old(roster).deep_view(), msgs@).0,
        final(roster).deep_view() == spec_apply_messages(
            *old(screen),
            old(roster).deep_view(),
            msgs@,
        ).1,
{
    let ghost all = msgs@;
    let mut msgs = msgs;
    let ghost done: int = 0;
    loop
        invariant
            0 <= done <= all.len(),
            msgs@ == all.skip(done),
            spec_apply_messages(*old(screen), old(roster).deep_view(), all)
                == spec_apply_messages(*screen, roster.deep_view(), msgs@),
        ensures
            msgs@.len() == 0,
            spec_apply_messages(*old(screen), old(roster).deep_view(), all)
                == spec_apply_messages(*screen, roster.deep_view(), msgs@),
        decreases msgs@.len(),
    {
        if msgs.len() == 0 {
            break ;
        }
        let ghost before = msgs@;
        let msg = msgs.remove(0);
        proof {
            assert(before.drop_first() =~= msgs@);
            assert(msgs@ =~= all.skip(done + 1));
        }
        apply_message(screen, roster, msg);
        proof {
            done = done + 1;
        }
    }
}

/// What draining a queue of raw payloads does: each payload is decoded
/// and applied in arrival order; the first payload that fails validation
/// stops processing with the reductions so far kept, and the connection
/// is torn down (the `bool` is false).
pub open spec fn spec_process_inbound(
    screen: Screen,
    roster: Seq<Seq<char>>,
    payloads: Seq<Seq<u8>>,
) -> (Screen, Seq<Seq<char>>, bool)
    decreases payloads.len(),
{
    if payloads.len() == 0 {
        (screen, roster, true)
    } else {
        match spec_decode(payloads[0]) {
            None => (screen, roster, false),
            Some(mv) => {
                let stepped = spec_apply_view(screen, roster, mv);
                spec_process_inbound(stepped.0, stepped.1, payloads.drop_first())
            },
        }
    }
}

/// Drain a queue of raw wire payloads in arrival order: decode each,
/// validate it, and apply it exactly once.  A payload that fails
/// validation is a hard error: processing stops there and the caller
/// must tear the connection down.
pub fn process_inbound(
    screen: &mut Screen,
    roster: &mut Vec<String>,
    payloads: &Vec<Vec<u8>>,
) -> (r: Result<(), ProtocolError>)
    ensures
        ({
            let outcome = spec_process_inbound(
                *old(screen),
                old(roster).deep_view(),
                payloads.deep_view(),
            );
            &&& *final(screen) == outcome.0
            &&& final(roster).deep_view() == outcome.1
            &&& (r is Ok <==> outcome.2)
        }),
{
    let ghost all = payloads.deep_view();
    let n = payloads.len();
    proof {
        assert(all.skip(0) =~= all);
    }
    let mut i: usize = 0;
    while i < n
        invariant
            i <= n,
            n == payloads@.len(),
            all == payloads.deep_view(),
            all.len() == n,
            spec_process_inbound(*old(screen), old(roster).deep_view(), all)
                == spec_process_inbound(*screen, roster.deep_view(), all.skip(i as int)),
        decreases n - i,
    {
        proof {
            assert(all[i as int] == payloads@[i as int]@);
            assert(all.skip(i as int)[0] == all[i as int]);
            assert(all.skip(i as int).drop_first() =~= all.skip(i as int + 1));
        }
        match MessageData::from_bytes(payloads[i].as_slice()) {
            Ok(message) => {
                apply_message(screen, roster, message);
            },
            Err(e) => {
                return Err(e);
            },
        }
        i = i + 1;
    }
    proof {
        assert(all.skip(n as int) =~= Seq::<Seq<u8>>::empty());
    }
    Ok(())
}

/// The loading screen's per-tick decision: once no asset is still pending,
/// a loading client moves on to hosting the game.  Any other screen, or a
/// pending asset, leaves the screen unchanged.
pub fn loading_update(screen: &mut Screen, pending_assets: usize)
    ensures
        *final(screen) == (if *old(screen) is Loading && pending_assets == 0 {
            Screen::HostingGame
        } else {
            *old(screen)
        }),
{
    if matches!(*screen, Screen::Loading) && pending_assets == 0 {
        *screen = Screen::HostingGame;
    }
}

} // verus!
