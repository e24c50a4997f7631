//! The game's answers to the messages of the players.

use vstd::prelude::*;
use crate::leaderboard::{Leaderboard, LeaderboardEntry, NAME_MAX_BYTES, insertion_index, is_char_boundary, utf8_len};
use crate::network::{
    ClientMessage, ClientMessageContent, CommandMessage, Recipient, ServerMessage, ServerMessageWithRecipient,
    TransitionMessage, TurnMessage,
};
use crate::sense::SensesInfo;
use crate::types::{GameOver, GameOverStatus, PlayerId, StageId, StageTurn, Timeline, Turn, spec_game_over};
use crate::world::{CommandResult, CommandResultOutcome, Limbo, World, WorldError, command_outcome, retired_game_over};
use crate::stage::reported_info;

verus! {

/// Two lists of leaderboard entries hold the same names and game overs.
pub open spec fn same_entries(a: Seq<LeaderboardEntry>, b: Seq<LeaderboardEntry>) -> bool {
    &&& a.len() == b.len()
    &&& forall|i: int| 0 <= i < a.len() ==> #[trigger] a[i].gameover == b[i].gameover && a[i].name@ == b[i].name@
}

/// The message goes to this one player.
pub open spec fn sent_to(m: ServerMessageWithRecipient, pid: PlayerId) -> bool {
    m.recipient matches Recipient::Single(p) && p == pid
}

fn single(pid: PlayerId, message: ServerMessage) -> (r: ServerMessageWithRecipient)
    ensures
        sent_to(r, pid),
        r.message == message,
{
    ServerMessageWithRecipient { recipient: Recipient::Single(pid), message }
}

/// The message that tells the player the outcome of its command.
pub open spec fn outcome_message(pid: PlayerId, turn: Turn, outcome: CommandResultOutcome) -> ServerMessageWithRecipient {
    ServerMessageWithRecipient {
        recipient: Recipient::Single(pid),
        message: match outcome {
            CommandResultOutcome::Turn { stage, stage_turn, info, action, events, timeline } => ServerMessage::Turn(
                TurnMessage { player_id: pid, turn, stage_turn, stage, info, action, events, timeline },
            ),
            CommandResultOutcome::Transition { stage_id, stage_info: _, stage_turn, info, timeline } => ServerMessage::Transition(
                TransitionMessage { player_id: pid, turn, stage_turn, stage: stage_id, info, timeline },
            ),
            CommandResultOutcome::Gameover(gameover) => ServerMessage::GameOver(gameover),
        },
    }
}

/// The new timeline of `stage`, with its own sense info, for each player of
/// `infos` other than `pid`.
pub open spec fn timeline_messages(
    pid: PlayerId,
    stage: StageId,
    timeline: Timeline,
    infos: Seq<(PlayerId, StageTurn, SensesInfo)>,
) -> Seq<ServerMessageWithRecipient>
    decreases infos.len(),
{
    if infos.len() == 0 {
        Seq::empty()
    } else {
        let rest = timeline_messages(pid, stage, timeline, infos.drop_last());
        let (p, stage_turn, info) = infos.last();
        if p == pid {
            rest
        } else {
            rest.push(ServerMessageWithRecipient {
                recipient: Recipient::Single(p),
                message: ServerMessage::Timeline(stage, stage_turn, timeline, Some(info)),
            })
        }
    }
}

/// The timeline messages of every stage updated, in order; `infos[i]` holds
/// what the players of the `i`-th updated stage perceive.
pub open spec fn all_timeline_messages(
    pid: PlayerId,
    updates: Seq<(StageId, Timeline)>,
    infos: Seq<Seq<(PlayerId, StageTurn, SensesInfo)>>,
) -> Seq<ServerMessageWithRecipient>
    decreases updates.len(),
{
    if updates.len() == 0 {
        Seq::empty()
    } else {
        let k = updates.len() - 1;
        all_timeline_messages(pid, updates.drop_last(), infos.take(k))
            + timeline_messages(pid, updates[k].0, updates[k].1, infos[k])
    }
}

/// What a player learns of its fate: a death ends its game; a saved avatar
/// comes with its sense info; a death that may still be undone puts it in limbo.
pub open spec fn limbo_message(limbo: Limbo) -> ServerMessageWithRecipient {
    match limbo {
        Limbo::Dead(avatar) | Limbo::TooFarBehind(avatar) => ServerMessageWithRecipient {
            recipient: Recipient::Single(avatar.player_id),
            message: ServerMessage::GameOver(spec_game_over(GameOverStatus::Dead, 1, avatar.turns)),
        },
        Limbo::Averted(pid, info) => ServerMessageWithRecipient {
            recipient: Recipient::Single(pid),
            message: ServerMessage::Limbo { averted: true, senses_info: Some(info) },
        },
        Limbo::MaybeDead(pid) => ServerMessageWithRecipient {
            recipient: Recipient::Single(pid),
            message: ServerMessage::Limbo { averted: false, senses_info: None },
        },
    }
}

/// The messages that answer a command: first its own outcome, then the new
/// timeline of each stage it touched for the other players there, then the
/// changes of fate of the players.
pub open spec fn spec_command_messages(
    pid: PlayerId,
    turn: Turn,
    result: CommandResult,
    infos: Seq<Seq<(PlayerId, StageTurn, SensesInfo)>>,
) -> Seq<ServerMessageWithRecipient> {
    seq![outcome_message(pid, turn, result.outcome)]
        + all_timeline_messages(pid, result.timeline_updates@, infos)
        + result.limbos@.map_values(|l: Limbo| limbo_message(l))
}

/// `infos` is what `World::get_all_infos_for_stage` gives for `stage`: one
/// entry for each player of the stage, at the player's turn, with what it
/// perceives there with the senses of its command.
pub open spec fn infos_of_stage(world: World, stage: StageId, infos: Seq<(PlayerId, StageTurn, SensesInfo)>) -> bool {
    &&& stage >= world.stages@.len() ==> infos.len() == 0
    &&& stage < world.stages@.len() ==> {
        &&& infos.len() == world.stages@[stage as int].avatar_trackers@.dom().len()
        &&& forall|i: int| 0 <= i < infos.len() ==> #[trigger] world.stages@[stage as int].avatar_trackers@.contains_key(infos[i].0)
            && infos[i].1 == world.stages@[stage as int].avatar_trackers@[infos[i].0].turn
            && reported_info(world.stages@[stage as int], infos[i].0, infos[i].1, infos[i].2)
    }
}

/// `msgs` answers the command `cmd` whose result is `result`, with what the
/// players of `world` perceive on the stages it touched.
pub open spec fn answers_command(world: World, cmd: CommandMessage, result: CommandResult, msgs: Seq<ServerMessageWithRecipient>) -> bool {
    exists|infos: Seq<Seq<(PlayerId, StageTurn, SensesInfo)>>|
        #[trigger] spec_command_messages(cmd.player_id, cmd.turn, result, infos) == msgs
        && infos.len() == result.timeline_updates@.len()
        && forall|i: int| 0 <= i < infos.len() ==> infos_of_stage(world, result.timeline_updates@[i].0, #[trigger] infos[i])
}

fn timeline_messages_exec(
    pid: PlayerId,
    stage: StageId,
    timeline: Timeline,
    infos: Vec<(PlayerId, StageTurn, SensesInfo)>,
    msgs: &mut Vec<ServerMessageWithRecipient>,
)
    ensures
        final(msgs)@ == old(msgs)@ + timeline_messages(pid, stage, timeline, infos@),
{
    let ghost all = infos@;
    let ghost start = msgs@;
    let mut rest = infos;
    let total = rest.len();
    let mut k: usize = 0;
    while rest.len() > 0
        invariant
            total == all.len(),
            k <= all.len(),
            rest@ == all.subrange(k as int, all.len() as int),
            msgs@ == start + timeline_messages(pid, stage, timeline, all.take(k as int)),
        decreases rest@.len(),
    {
        let (p, stage_turn, info) = rest.remove(0);
        proof {
            assert(all.take(k + 1).drop_last() =~= all.take(k as int));
            assert(all.take(k + 1).last() == all[k as int]);
        }
        if p != pid {
            // The player that played learns its timeline with its turn
            msgs.push(single(p, ServerMessage::Timeline(stage, stage_turn, timeline, Some(info))));
        }
        k = k + 1;
    }
    proof {
        assert(all.take(k as int) =~= all);
    }
}

/// The messages that answer `player_id`'s command of turn `turn` whose
/// result is `result`; `infos[i]` holds what the players of the `i`-th
/// updated stage perceive.
pub fn command_messages(
    player_id: PlayerId,
    turn: Turn,
    result: CommandResult,
    infos: Vec<Vec<(PlayerId, StageTurn, SensesInfo)>>,
) -> (r: Vec<ServerMessageWithRecipient>)
    requires
        infos@.len() == result.timeline_updates@.len(),
    ensures
        r@ == spec_command_messages(player_id, turn, result, infos@.map_values(|v: Vec<(PlayerId, StageTurn, SensesInfo)>| v@)),
{
    let ghost res = result;
    let ghost all_infos = infos@.map_values(|v: Vec<(PlayerId, StageTurn, SensesInfo)>| v@);
    let CommandResult { timeline_updates, limbos, outcome } = result;
    let mut msgs: Vec<ServerMessageWithRecipient> = Vec::new();
    match outcome {
        CommandResultOutcome::Turn { stage, stage_turn, info, action, events, timeline } => {
            // Send turn result with senses info
            let msg = TurnMessage { player_id, turn, stage_turn, stage, action, info, events, timeline };
            msgs.push(single(player_id, ServerMessage::Turn(msg)));
        },
        CommandResultOutcome::Transition { stage_id, stage_info: _, stage_turn, info, timeline } => {
            let msg = TransitionMessage { player_id, turn, stage_turn, stage: stage_id, info, timeline };
            msgs.push(single(player_id, ServerMessage::Transition(msg)));
        },
        CommandResultOutcome::Gameover(gameover) => {
            msgs.push(single(player_id, ServerMessage::GameOver(gameover)));
        },
    }
    proof {
        assert(msgs@ =~= seq![outcome_message(player_id, turn, res.outcome)]);
    }
    let ghost ups = timeline_updates@;
    let ghost head = msgs@;
    let mut updates = timeline_updates;
    let mut rest_infos = infos;
    let total = updates.len();
    let mut k: usize = 0;
    while updates.len() > 0
        invariant
            total == ups.len(),
            k <= ups.len(),
            ups.len() == all_infos.len(),
            updates@ == ups.subrange(k as int, ups.len() as int),
            rest_infos@.len() == updates@.len(),
            forall|j: int| 0 <= j < rest_infos@.len() ==> #[trigger] rest_infos@[j]@ == all_infos[k + j],
            msgs@ == head + all_timeline_messages(player_id, ups.take(k as int), all_infos.take(k as int)),
        decreases updates@.len(),
    {
        let (stage_id, timeline) = updates.remove(0);
        let stage_infos = rest_infos.remove(0);
        proof {
            assert(ups.take(k + 1).drop_last() =~= ups.take(k as int));
            assert(all_infos.take(k + 1).take(k as int) =~= all_infos.take(k as int));
            assert(stage_infos@ == all_infos[k as int]);
        }
        timeline_messages_exec(player_id, stage_id, timeline, stage_infos, &mut msgs);
        proof {
            assert(head + all_timeline_messages(player_id, ups.take(k as int), all_infos.take(k as int))
                + timeline_messages(player_id, ups[k as int].0, ups[k as int].1, all_infos[k as int])
                =~= head + all_timeline_messages(player_id, ups.take(k + 1), all_infos.take(k + 1)));
        }
        k = k + 1;
    }
    proof {
        assert(ups.take(k as int) =~= ups);
        assert(all_infos.take(k as int) =~= all_infos);
    }
    let ghost mid = msgs@;
    let ghost ls = limbos@;
    let mut rest = limbos;
    let total_limbos = rest.len();
    let mut j: usize = 0;
    while rest.len() > 0
        invariant
            total_limbos == ls.len(),
            j <= ls.len(),
            rest@ == ls.subrange(j as int, ls.len() as int),
            msgs@ == mid + ls.take(j as int).map_values(|l: Limbo| limbo_message(l)),
        decreases rest@.len(),
    {
        let limbo = rest.remove(0);
        let msg = match limbo {
            Limbo::Dead(avatar) => {
                let g = GameOver::new(&avatar, GameOverStatus::Dead, 1);
                single(avatar.player_id, ServerMessage::GameOver(g))
            },
            Limbo::TooFarBehind(avatar) => {
                let g = GameOver::new(&avatar, GameOverStatus::Dead, 1);
                single(avatar.player_id, ServerMessage::GameOver(g))
            },
            Limbo::Averted(pid, senses_info) => {
                single(pid, ServerMessage::Limbo { averted: true, senses_info: Some(senses_info) })
            },
            Limbo::MaybeDead(pid) => {
                single(pid, ServerMessage::Limbo { averted: false, senses_info: None })
            },
        };
        msgs.push(msg);
        proof {
            assert(ls.take(j + 1).map_values(|l: Limbo| limbo_message(l))
                =~= ls.take(j as int).map_values(|l: Limbo| limbo_message(l)).push(limbo_message(ls[j as int])));
        }
        j = j + 1;
    }
    proof {
        assert(ls.take(j as int) =~= ls);
        assert(msgs@ =~= spec_command_messages(player_id, turn, res, all_infos));
    }
    msgs
}

/// A player's command: the world plays it, and the messages that answer it
/// are formed from its result and from what the players of the stages it
/// touched perceive afterwards.
pub fn player_command(world: &mut World, cmd: CommandMessage) -> (r: Result<Vec<ServerMessageWithRecipient>, WorldError>)
    requires
        old(world).wf(),
    ensures
        final(world).wf(),
        exists|res: Result<CommandResult, WorldError>| #[trigger] command_outcome(*old(world), *final(world), cmd.player_id, cmd.action, cmd.senses, res)
            && match res {
                Err(e) => r == Err::<Vec<ServerMessageWithRecipient>, WorldError>(e),
                Ok(c) => r matches Ok(msgs) && msgs@.len() > 0 && answers_command(*final(world), cmd, c, msgs@),
            },
{
    let player_id = cmd.player_id;
    let turn = cmd.turn;
    let result = match world.add_command(player_id, cmd.action, cmd.senses) {
        Ok(result) => result,
        Err(e) => {
            proof {
                assert(command_outcome(*old(world), *world, cmd.player_id, cmd.action, cmd.senses, Err::<CommandResult, WorldError>(e)));
            }
            return Err(e);
        },
    };
    let ghost played = result;
    proof {
        assert(command_outcome(*old(world), *world, cmd.player_id, cmd.action, cmd.senses, Ok::<CommandResult, WorldError>(played)));
    }
    let n = result.timeline_updates.len();
    let mut infos: Vec<Vec<(PlayerId, StageTurn, SensesInfo)>> = Vec::new();
    let mut i: usize = 0;
    while i < n
        invariant
            n == result.timeline_updates@.len(),
            i <= n,
            world.wf(),
            infos@.len() == i,
            forall|j: int| 0 <= j < i ==> infos_of_stage(*world, result.timeline_updates@[j].0, #[trigger] infos@[j]@),
        decreases n - i,
    {
        let stage_infos = world.get_all_infos_for_stage(result.timeline_updates[i].0);
        proof {
            assert(infos_of_stage(*world, result.timeline_updates@[i as int].0, stage_infos@));
        }
        let ghost before = infos@;
        infos.push(stage_infos);
        proof {
            assert forall|j: int| 0 <= j < i + 1 implies infos_of_stage(*world, result.timeline_updates@[j].0, #[trigger] infos@[j]@) by {
                if j < i {
                    assert(infos@[j] == before[j]);
                }
            }
        }
        i = i + 1;
    }
    let ghost res = result;
    let ghost all_infos = infos@.map_values(|v: Vec<(PlayerId, StageTurn, SensesInfo)>| v@);
    let msgs = command_messages(player_id, turn, result, infos);
    proof {
        assert(forall|j: int| 0 <= j < all_infos.len() ==> infos_of_stage(*world, res.timeline_updates@[j].0, #[trigger] all_infos[j]));
        assert(spec_command_messages(cmd.player_id, cmd.turn, res, all_infos) == msgs@);
        assert(answers_command(*world, cmd, played, msgs@));
    }
    Ok(msgs)
}

/// What the server does with a client's message, and the messages it sends
/// back: a start creates the player; a command plays; a leaderboard request
/// is answered to its sender; a submitted score retires the player, enters
/// its game over on the leaderboard and shows the leaderboard to everyone.
pub fn handle_client_message(world: &mut World, leaderboard: &mut Leaderboard, msg: ClientMessage) -> (r: Vec<ServerMessageWithRecipient>)
    requires
        old(world).wf(),
        msg.content matches ClientMessageContent::LeaderboardSubmit(_, name) ==> is_char_boundary(name@, NAME_MAX_BYTES as nat),
        msg.content is Start ==> old(world).stages@.len() > 0,
    ensures
        final(world).wf(),
        match msg.content {
            ClientMessageContent::Start(pid, name) => {
                &&& r@.len() == 0
                &&& final(leaderboard).view() == old(leaderboard).view()
                &&& old(world).stages@[0].head_turn < u64::MAX - 2 ==> final(world).player_by_id@.contains_key(pid)
                &&& final(world).player_by_id@.contains_key(pid) ==> {
                    let p = final(world).player_by_id@[pid];
                    &&& p.stage == Some(0usize)
                    &&& p.gameover is None
                    &&& name matches Some(n) ==> p.name@ == n@
                    &&& final(world).stages@[0].avatar_trackers@.contains_key(pid)
                }
            },
            ClientMessageContent::Leaderboard => final(leaderboard).view() == old(leaderboard).view() && match msg.player_id {
                Some(pid) => r@.len() == 1 && sent_to(r@[0], pid)
                    && (r@[0].message matches ServerMessage::Leaderboard(lb) && same_entries(lb.view(), old(leaderboard).view())),
                None => r@.len() == 0,
            },
            ClientMessageContent::LeaderboardSubmit(pid, name) => {
                &&& final(world).player_by_id@ == old(world).player_by_id@.remove(pid)
                &&& match retired_game_over(*old(world), pid) {
                    None => r@.len() == 0 && final(leaderboard).view() == old(leaderboard).view(),
                    Some(g) => {
                        let i = insertion_index(old(leaderboard).view(), g.score);
                        let entry = final(leaderboard).view()[i];
                        &&& r@.len() == 1
                        &&& r@[0].recipient is Broadcast
                        &&& r@[0].message matches ServerMessage::Leaderboard(lb) && same_entries(lb.view(), final(leaderboard).view())
                        &&& 0 <= i <= old(leaderboard).view().len()
                        &&& final(leaderboard).view() == old(leaderboard).view().insert(i, entry)
                        &&& entry.gameover == g
                        &&& entry.name@.is_prefix_of(name@)
                        &&& utf8_len(name@) <= NAME_MAX_BYTES ==> entry.name@ == name@
                        &&& utf8_len(name@) > NAME_MAX_BYTES ==> utf8_len(entry.name@) == NAME_MAX_BYTES
                    },
                }
            },
            ClientMessageContent::Command(cmd) => {
                &&& final(leaderboard).view() == old(leaderboard).view()
                &&& exists|res: Result<CommandResult, WorldError>|
                    #[trigger] command_outcome(*old(world), *final(world), cmd.player_id, cmd.action, cmd.senses, res)
                    && match res {
                        Err(_) => r@.len() == 0,
                        Ok(c) => r@.len() > 0 && answers_command(*final(world), cmd, c, r@),
                    }
            },
        },
{
    match msg.content {
        ClientMessageContent::Start(pid, name) => {
            let _ = world.new_player(pid, name);
            Vec::new()
        },
        ClientMessageContent::Command(cmd) => {
            match player_command(world, cmd) {
                Ok(msgs) => msgs,
                Err(_) => Vec::new(),
            }
        },
        ClientMessageContent::Leaderboard => {
            // Send current leaderboard to requesting client
            let mut r: Vec<ServerMessageWithRecipient> = Vec::new();
            if let Some(player_id) = msg.player_id {
                r.push(single(player_id, ServerMessage::Leaderboard(leaderboard.clone())));
            }
            r
        },
        ClientMessageContent::LeaderboardSubmit(player_id, name) => {
            let mut r: Vec<ServerMessageWithRecipient> = Vec::new();
            if let Some(gameover) = world.retire_player(player_id) {
                let entry = LeaderboardEntry::new(name, &gameover);
                leaderboard.add(entry);
                r.push(ServerMessageWithRecipient {
                    recipient: Recipient::Broadcast,
                    message: ServerMessage::Leaderboard(leaderboard.clone()),
                });
            }
            r
        },
    }
}

} // verus!
