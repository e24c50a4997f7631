//! The world: the stages of a game and the players that travel through them.

use vstd::prelude::*;
use std::collections::BTreeMap;
use crate::board::{flag_cells, flag_cols, flag_grid_clone};
use crate::events::GEvent;
use crate::sense::{SenseType, SensesInfo};
use crate::action::spec_convert_client;
use crate::types::{Avatar, ClientAction, Foe, GameOver, GameOverStatus, spec_game_over, PlayerId, ServerAction, StageId, StageTurn, Tiles,
    Timeline, Transition, HP_MAX, FOCUS_MAX};
use crate::sense::Senses;
use crate::stage::{Stage, StageCommandResult, StageError, template_fits, limbo_tag, played, reported_info, LimboTag};

verus! {

/// How the turns of a stage relate to the players' turns.
#[derive(Debug, Clone, Copy, PartialEq, Eq, Structural)]
pub enum TimelineType {
    /// Every player plays at its own pace; the stage keeps the turns in between.
    Asynchronous,
}

/// Data of a stage that can not change with time or action players
#[derive(Debug)]
pub struct StageTemplate {
    pub id: String,
    pub name: String,
    pub tiles: Tiles,
    /// Cells where the orb may appear.
    pub orb_spawns: grid::Grid<bool>,
    pub foes: Vec<Foe>,
    pub fp_regen: u32,
    pub senses: Vec<SenseType>,
    pub timeline_length: u32,
    pub timeline_type: TimelineType,
}

/// Two templates that describe the same stage.
pub open spec fn same_template(a: StageTemplate, b: StageTemplate) -> bool {
    &&& a.id@ == b.id@
    &&& a.name@ == b.name@
    &&& a.tiles.spec_same(b.tiles)
    &&& flag_cells(a.orb_spawns) == flag_cells(b.orb_spawns)
    &&& flag_cols(a.orb_spawns) == flag_cols(b.orb_spawns)
    &&& a.foes@ == b.foes@
    &&& a.fp_regen == b.fp_regen
    &&& a.senses@ == b.senses@
    &&& a.timeline_length == b.timeline_length
    &&& a.timeline_type == b.timeline_type
}

impl Clone for StageTemplate {
    fn clone(&self) -> (r: StageTemplate)
        ensures
            same_template(r, *self),
    {
        StageTemplate {
            id: self.id.clone(),
            name: self.name.clone(),
            tiles: self.tiles.clone(),
            orb_spawns: flag_grid_clone(&self.orb_spawns),
            foes: crate::maps::copy_vec(&self.foes),
            fp_regen: self.fp_regen,
            senses: self.senses.clone(),
            timeline_length: self.timeline_length,
            timeline_type: self.timeline_type,
        }
    }
}

impl StageTemplate {
    pub fn new(
        id: String,
        name: String,
        tiles: Tiles,
        orb_spawns: grid::Grid<bool>,
        foes: Vec<Foe>,
        fp_regen: u32,
        senses: Vec<SenseType>,
        timeline_length: u32,
        timeline_type: TimelineType,
    ) -> (r: StageTemplate)
        ensures
            r.id@ == id@,
            r.name@ == name@,
            r.tiles == tiles,
            r.orb_spawns == orb_spawns,
            r.foes@ == foes@,
            r.fp_regen == fp_regen,
            r.senses@ == senses@,
            r.timeline_length == timeline_length,
            r.timeline_type == timeline_type,
    {
        StageTemplate { id, name, tiles, foes, orb_spawns, fp_regen, senses, timeline_length, timeline_type }
    }
}

/// What a stage tells a player when it enters it.
pub struct StageInfo {
    pub name: String,
    pub timeline_length: u32,
    pub senses: Vec<SenseType>,
}

impl StageInfo {
    pub fn from_template(value: &StageTemplate) -> (r: StageInfo)
        ensures
            r.name@ == value.name@,
            r.timeline_length == value.timeline_length,
            r.senses@ == value.senses@,
    {
        StageInfo { name: value.name.clone(), timeline_length: value.timeline_length, senses: value.senses.clone() }
    }
}

/// A player of the game.
pub struct Player {
    pub id: PlayerId,
    pub name: String,
    pub stage: Option<StageId>,
    /// Copy of the last avatar sent to a stage
    pub last_avatar: Avatar,
    pub gameover: Option<GameOver>,
}

/// How the fate of an avatar changed after a command.
pub enum Limbo {
    /// The avatar is dead and nothing earlier can save it.
    Dead(Avatar),
    /// The avatar is dead, but a player behind it on the timeline may still save it.
    MaybeDead(PlayerId),
    /// The avatar was thought dead and is not anymore.
    Averted(PlayerId, SensesInfo),
    /// The player is too far behind the head of the stage.
    TooFarBehind(Avatar),
}

/// Info returned by add_command. Game over data might concern other players as they can be saved
/// by another player.
pub struct CommandResult {
    pub limbos: Vec<Limbo>,
    pub timeline_updates: Vec<(StageId, Timeline)>,
    pub outcome: CommandResultOutcome,
}

pub enum CommandResultOutcome {
    Turn {
        stage: StageId,
        stage_turn: StageTurn,
        info: Option<SensesInfo>,
        action: ServerAction,
        events: Vec<GEvent>,
        timeline: Timeline,
    },
    Transition {
        stage_id: StageId,
        stage_info: StageInfo,
        stage_turn: StageTurn,
        info: Option<SensesInfo>,
        timeline: Timeline,
    },
    Gameover(GameOver),
}

/// Where a transition leads.
#[derive(Debug, Clone, Copy, PartialEq, Eq, Structural)]
pub enum TransitionDestination {
    Stage(StageId),
    End,
}

/// Why a request to the world failed.
#[derive(Debug, Clone, Copy, PartialEq, Eq, Structural)]
pub enum WorldError {
    /// No player has this id.
    NoPlayer,
    /// The player is not on a stage.
    NotInStage,
    /// The player's stage does not exist.
    NoStage,
    /// The stage has no avatar for the player.
    NoAvatar,
    /// The stage's timeline has no turn left.
    TimelineExhausted,
    /// The stage refused the command.
    Stage(StageError),
}

/// The next stage after an orb, or the end of the game after the last one.
pub open spec fn spec_destination(n_stages: nat, transition: Transition, previous_stage: StageId) -> TransitionDestination {
    match transition {
        Transition::Orb => if previous_stage + 1 > n_stages - 1 {
            TransitionDestination::End
        } else {
            TransitionDestination::Stage((previous_stage + 1) as usize)
        },
    }
}

pub fn find_destination(stages: &Vec<Stage>, transition: &Transition, previous_stage: StageId) -> (r: TransitionDestination)
    requires
        stages@.len() > 0,
        previous_stage < stages@.len(),
    ensures
        r == spec_destination(stages@.len(), *transition, previous_stage),
{
    match transition {
        Transition::Orb => {
            let max_stage = stages.len() - 1;
            let next_stage = previous_stage + 1;
            if next_stage > max_stage {
                TransitionDestination::End
            } else {
                TransitionDestination::Stage(next_stage)
            }
        },
    }
}

/// The character of a decimal digit.
pub open spec fn digit_char(d: nat) -> char {
    if d == 0 { '0' } else if d == 1 { '1' } else if d == 2 { '2' } else if d == 3 { '3' } else if d == 4 { '4' }
    else if d == 5 { '5' } else if d == 6 { '6' } else if d == 7 { '7' } else if d == 8 { '8' } else { '9' }
}

/// The decimal writing of `n`.
pub open spec fn spec_decimal(n: nat) -> Seq<char>
    decreases n,
{
    if n < 10 {
        seq![digit_char(n)]
    } else {
        spec_decimal(n / 10) + seq![digit_char(n % 10)]
    }
}

fn digit_str(d: usize) -> (r: &'static str)
    requires
        d < 10,
    ensures
        r@ == seq![digit_char(d as nat)],
{
    proof {
        reveal_strlit("0");
        reveal_strlit("1");
        reveal_strlit("2");
        reveal_strlit("3");
        reveal_strlit("4");
        reveal_strlit("5");
        reveal_strlit("6");
        reveal_strlit("7");
        reveal_strlit("8");
        reveal_strlit("9");
    }
    match d {
        0 => "0",
        1 => "1",
        2 => "2",
        3 => "3",
        4 => "4",
        5 => "5",
        6 => "6",
        7 => "7",
        8 => "8",
        _ => "9",
    }
}

fn push_decimal(s: &mut String, n: usize)
    ensures
        final(s)@ == old(s)@ + spec_decimal(n as nat),
    decreases n,
{
    if n >= 10 {
        push_decimal(s, n / 10);
    }
    s.append(digit_str(n % 10));
    proof {
        assert(final(s)@ =~= old(s)@ + spec_decimal(n as nat));
    }
}

/// The name given to the `n`-th player that came without one: `P` and `n`.
pub fn player_label(n: usize) -> (r: String)
    ensures
        r@ == seq!['P'] + spec_decimal(n as nat),
{
    proof {
        reveal_strlit("P");
    }
    let mut s = String::from_str("P");
    push_decimal(&mut s, n);
    s
}

pub struct World {
    pub player_by_id: BTreeMap<PlayerId, Player>,
    pub stages: Vec<Stage>,
    pub name_gen: usize,
}

/// The game over a player leaves with: the one it had when it is on no
/// stage; otherwise a death where its avatar stood at the player's turn, if the
/// avatar is there.
pub open spec fn retired_game_over(world: World, pid: PlayerId) -> Option<GameOver> {
    if !world.player_by_id@.contains_key(pid) {
        None
    } else {
        match world.player_by_id@[pid].stage {
            None => world.player_by_id@[pid].gameover,
            Some(i) => if i >= world.stages@.len() || !world.stages@[i as int].avatar_trackers@.contains_key(pid) {
                None
            } else {
                let st = world.stages@[i as int];
                let s = st.spec_states()[st.avatar_trackers@[pid].turn];
                if s.avatars@.contains_key(pid) {
                    Some(spec_game_over(GameOverStatus::Dead, i, s.avatars@[pid].turns))
                } else {
                    None
                }
            },
        }
    }
}

impl World {
    /// Every stage keeps its bookkeeping, and there are few enough stages for
    /// the scores to be counted.
    pub open spec fn wf(&self) -> bool {
        &&& self.stages@.len() * 20000 <= u64::MAX
        &&& forall|i: int| 0 <= i < self.stages@.len() ==> #[trigger] self.stages@[i].wf()
        &&& forall|p: PlayerId| #[trigger] self.player_by_id@.contains_key(p) ==> self.player_by_id@[p].id == p
    }

    /// A world with one stage per template, each fresh with a seed of its own,
    /// and no player.
    pub fn new(stages: Vec<StageTemplate>) -> (r: World)
        requires
            stages@.len() * 20000 <= u64::MAX,
            forall|i: int| 0 <= i < stages@.len() ==> template_fits(#[trigger] stages@[i]),
        ensures
            r.wf(),
            r.stages@.len() == stages@.len(),
            forall|i: int| 0 <= i < stages@.len() ==> #[trigger] r.stages@[i].template == stages@[i]
                && r.stages@[i].head_turn == 0
                && r.stages@[i].avatar_trackers@ == Map::<PlayerId, crate::stage::AvatarTracker>::empty()
                && Stage::fresh(r.stages@[i], stages@[i], r.stages@[i].spec_seed()),
            r.player_by_id@ == Map::<PlayerId, Player>::empty(),
            r.name_gen == 0,
    {
        let mut templates = stages;
        let ghost all = templates@;
        let n = templates.len();
        let mut built: Vec<Stage> = Vec::new();
        let mut i: usize = 0;
        while i < n
            invariant
                n == all.len(),
                i <= n,
                templates@ == all.subrange(i as int, n as int),
                built@.len() == i,
                forall|k: int| 0 <= k < all.len() ==> template_fits(#[trigger] all[k]),
                forall|k: int| 0 <= k < i ==> #[trigger] built@[k].wf() && built@[k].template == all[k]
                    && built@[k].head_turn == 0
                    && built@[k].avatar_trackers@ == Map::<PlayerId, crate::stage::AvatarTracker>::empty()
                    && Stage::fresh(built@[k], all[k], built@[k].spec_seed()),
            decreases n - i,
        {
            let t = templates.remove(0);
            proof {
                assert(t == all[i as int]);
            }
            let stage = Stage::new(t);
            built.push(stage);
            proof {
                assert(templates@ =~= all.subrange(i + 1, n as int));
            }
            i = i + 1;
        }
        proof {
            assert forall|k: int| 0 <= k < all.len() implies #[trigger] built@[k].template == all[k]
                && built@[k].head_turn == 0
                && built@[k].avatar_trackers@ == Map::<PlayerId, crate::stage::AvatarTracker>::empty()
                && Stage::fresh(built@[k], all[k], built@[k].spec_seed()) by {
                assert(built@[k].wf());
            }
        }
        World { stages: built, player_by_id: BTreeMap::new(), name_gen: 0 }
    }

    /// The player leaves the game; gives back its game over: a death where it
    /// stood, or the one it already had.
    pub fn retire_player(&mut self, pid: PlayerId) -> (r: Option<GameOver>)
        requires
            old(self).wf(),
        ensures
            final(self).wf(),
            final(self).player_by_id@ == old(self).player_by_id@.remove(pid),
            final(self).stages@.len() == old(self).stages@.len(),
            forall|i: int| 0 <= i < final(self).stages@.len()
                ==> #[trigger] final(self).stages@[i].head_turn <= old(self).stages@[i].head_turn,
            final(self).name_gen == old(self).name_gen,
            r == retired_game_over(*old(self), pid),
    {
        let player = match self.player_by_id.remove(&pid) {
            Some(p) => p,
            None => return None,
        };
        match player.stage {
            Some(stage_id) => {
                if stage_id >= self.stages.len() {
                    return None;
                }
                let ghost before = self.stages@;
                let removed = self.stages[stage_id].remove_player(pid);
                proof {
                    assert forall|i: int| 0 <= i < self.stages@.len() implies #[trigger] self.stages@[i].wf() by {
                        if i != stage_id {
                            assert(self.stages@[i] == before[i]);
                        }
                    }
                }
                match removed {
                    Some(avatar) => Some(GameOver::new(&avatar, GameOverStatus::Dead, stage_id)),
                    None => None,
                }
            },
            None => player.gameover,
        }
    }

    /// A new player enters the first stage, under the name given or one made
    /// up; an earlier player with this id leaves first.
    pub fn new_player(&mut self, pid: PlayerId, name: Option<String>) -> (r: Result<CommandResult, WorldError>)
        requires
            old(self).wf(),
            old(self).stages@.len() > 0,
        ensures
            final(self).wf(),
            final(self).stages@.len() == old(self).stages@.len(),
            old(self).stages@[0].head_turn < u64::MAX - 2 ==> r is Ok,
            r matches Err(e) ==> e == WorldError::TimelineExhausted && !final(self).player_by_id@.contains_key(pid),
            r is Ok ==> {
                let p = final(self).player_by_id@[pid];
                &&& final(self).player_by_id@.contains_key(pid)
                &&& p.id == pid
                &&& p.stage == Some(0usize)
                &&& p.last_avatar.is_fresh(pid, 1)
                &&& p.gameover is None
                &&& match name {
                    Some(n) => p.name@ == n@,
                    None => p.name@ == seq!['P'] + spec_decimal(final(self).name_gen as nat)
                        && final(self).name_gen == if old(self).name_gen < usize::MAX { (old(self).name_gen + 1) as usize } else { 0 },
                }
                &&& final(self).stages@[0].avatar_trackers@.contains_key(pid)
                &&& final(self).stages@[0].avatar_trackers@[pid].turn == final(self).stages@[0].head_turn
            },
            r matches Ok(res) ==> res.outcome matches CommandResultOutcome::Transition { stage_id, stage_turn, timeline, .. }
                && stage_id == 0 && stage_turn == final(self).stages@[0].head_turn
                && timeline.head == final(self).stages@[0].head_turn,
    {
        // Retire player if present
        let _ = self.retire_player(pid);
        let name = match name {
            Some(name) => name,
            None => {
                self.name_gen = self.name_gen.wrapping_add(1);
                player_label(self.name_gen)
            },
        };
        let new_player = Player { id: pid, name, stage: Some(0), last_avatar: Avatar::new(pid), gameover: None };
        if self.stages[0].head_turn >= u64::MAX - 2 {
            return Err(WorldError::TimelineExhausted);
        }
        let ghost before = self.stages@;
        self.stages[0].add_player(&new_player);
        proof {
            assert forall|i: int| 0 <= i < self.stages@.len() implies #[trigger] self.stages@[i].wf() by {
                if i != 0 {
                    assert(self.stages@[i] == before[i]);
                }
            }
        }
        let info = match self.stages[0].gather_info(pid, &Senses::default()) {
            Ok(info) => Some(info),
            Err(_) => None,
        };
        let timeline = self.stages[0].timeline();
        let stage_turn = self.stages[0].head_turn;
        let stage_info = StageInfo::from_template(&self.stages[0].template);
        self.player_by_id.insert(pid, new_player);
        let mut timeline_updates: Vec<(StageId, Timeline)> = Vec::new();
        timeline_updates.push((0, timeline));
        Ok(CommandResult {
            limbos: Vec::new(),
            timeline_updates,
            outcome: CommandResultOutcome::Transition { stage_id: 0, stage_info, stage_turn, info, timeline },
        })
    }
}

/// The players that the changes of fate leave dead.
pub open spec fn dead_in(limbos: Seq<Limbo>, pid: PlayerId) -> bool {
    exists|i: int| 0 <= i < limbos.len() && (#[trigger] limbos[i] matches Limbo::Dead(a) && a.player_id == pid)
}

/// The avatar of the player at its turn on its stage.
pub open spec fn avatar_on_stage(w: World, pid: PlayerId) -> Avatar {
    let st = w.stages@[w.player_by_id@[pid].stage.unwrap() as int];
    st.spec_states()[st.avatar_trackers@[pid].turn].avatars@[pid]
}

/// The avatar starts afresh: full health and focus, not tired, on no
/// transition, with no log, keeping only its player and its turn count.
pub open spec fn is_reset(a: Avatar) -> bool {
    a.is_fresh(a.player_id, a.turns)
}

/// The worlds hold the same stages, players and name counter.
pub open spec fn same_world(w0: World, w1: World) -> bool {
    &&& w1.stages@ == w0.stages@
    &&& w1.player_by_id@ == w0.player_by_id@
    &&& w1.name_gen == w0.name_gen
}

/// What playing `pid`'s command `action` on `w0` gives, the world becoming `w1`:
/// - a player that is missing, on no stage, on a stage that does not exist or
///   whose timeline is exhausted, or that the stage does not know, gets the
///   matching error and the world is left as it was;
/// - otherwise the command is played: it succeeds, unless the state of the
///   player's new turn holds no avatar of it, its avatar left the stage by its
///   own change of fate before reaching the next one, or the timeline of the
///   next stage is exhausted;
/// - a turn answers with the next turn of the player, its action as the stage
///   reads it and the stage's new timeline; reaching the orb leads to the next
///   stage, or wins the game after the last one.
pub open spec fn command_outcome(
    w0: World,
    w1: World,
    pid: PlayerId,
    action: ClientAction,
    senses: Senses,
    r: Result<CommandResult, WorldError>,
) -> bool {
    &&& w1.stages@.len() == w0.stages@.len()
    &&& !w0.player_by_id@.contains_key(pid) ==> r == Err::<CommandResult, WorldError>(WorldError::NoPlayer) && same_world(w0, w1)
    &&& w0.player_by_id@.contains_key(pid) ==> match w0.player_by_id@[pid].stage {
        None => r == Err::<CommandResult, WorldError>(WorldError::NotInStage) && same_world(w0, w1),
        Some(s) => {
            &&& s >= w0.stages@.len() ==> r == Err::<CommandResult, WorldError>(WorldError::NoStage) && same_world(w0, w1)
            &&& s < w0.stages@.len() && w0.stages@[s as int].head_turn >= u64::MAX - 2
                ==> r == Err::<CommandResult, WorldError>(WorldError::TimelineExhausted) && same_world(w0, w1)
            &&& s < w0.stages@.len() && !w0.stages@[s as int].avatar_trackers@.contains_key(pid)
                && w0.stages@[s as int].head_turn < u64::MAX - 2
                ==> r == Err::<CommandResult, WorldError>(WorldError::Stage(StageError::UnknownAvatar)) && same_world(w0, w1)
            &&& s < w0.stages@.len() && w0.stages@[s as int].avatar_trackers@.contains_key(pid)
                && w0.stages@[s as int].head_turn < u64::MAX - 2 ==> {
                &&& r is Ok || r == Err::<CommandResult, WorldError>(WorldError::Stage(StageError::MissingState))
                    || r == Err::<CommandResult, WorldError>(WorldError::NoAvatar)
                    || r == Err::<CommandResult, WorldError>(WorldError::TimelineExhausted)
                &&& r == Err::<CommandResult, WorldError>(WorldError::Stage(StageError::MissingState))
                    ==> Stage::lacks_avatar(w1.stages@[s as int], pid, (w0.stages@[s as int].avatar_trackers@[pid].turn + 1) as u64)
                &&& r == Err::<CommandResult, WorldError>(WorldError::NoAvatar)
                    ==> !w1.stages@[s as int].avatar_trackers@.contains_key(pid)
                &&& r == Err::<CommandResult, WorldError>(WorldError::TimelineExhausted)
                    ==> exists|k: int| 0 <= k < w1.stages@.len() && #[trigger] w1.stages@[k].head_turn >= u64::MAX - 2
            }
            &&& r matches Ok(res) ==> match res.outcome {
                CommandResultOutcome::Turn { stage, stage_turn, action: a, timeline, info, events } => {
                    &&& exists|scr: StageCommandResult| #[trigger] played(w0.stages@[s as int], w1.stages@[s as int], pid, action, senses, scr)
                        && scr.transition is None
                        && info == Some(scr.senses_info)
                        && events@ == scr.events@
                        && res.limbos@ == scr.limbos@
                    &&& stage == s
                    &&& stage_turn == w0.stages@[s as int].avatar_trackers@[pid].turn + 1
                    &&& a == spec_convert_client(action, w0.stages@[s as int], pid)
                    &&& timeline.head == w1.stages@[s as int].head_turn
                    &&& timeline.tail == w1.stages@[s as int].spec_tail_turn()
                    &&& res.timeline_updates@ == seq![(s, timeline)]
                },
                CommandResultOutcome::Transition { stage_id, stage_turn, timeline, .. } => {
                    &&& exists|scr: StageCommandResult, mid: Stage| #[trigger] played(w0.stages@[s as int], mid, pid, action, senses, scr)
                        && scr.transition is Some
                        && scr.limbos@.len() <= res.limbos@.len()
                        && res.limbos@.subrange(res.limbos@.len() - scr.limbos@.len(), res.limbos@.len() as int) == scr.limbos@
                    &&& stage_id == s + 1
                    &&& w1.stages@[stage_id as int].diffs@.last().new_avatar matches Some(w) && is_reset(w)
                    &&& is_reset(w1.player_by_id@[pid].last_avatar)
                    &&& stage_turn == w1.stages@[stage_id as int].head_turn
                    &&& timeline.head == w1.stages@[stage_id as int].head_turn
                    &&& timeline.tail == w1.stages@[stage_id as int].spec_tail_turn()
                    &&& res.timeline_updates@.len() == 2 && res.timeline_updates@[0] == (stage_id, timeline)
                        && res.timeline_updates@[1].0 == s
                    &&& w1.stages@[stage_id as int].avatar_trackers@.contains_key(pid)
                    &&& w1.stages@[stage_id as int].avatar_trackers@[pid].turn == stage_turn
                    &&& !w1.stages@[s as int].avatar_trackers@.contains_key(pid)
                    &&& !dead_in(res.limbos@, pid) ==> w1.player_by_id@[pid].stage == Some(stage_id)
                },
                CommandResultOutcome::Gameover(g) => {
                    &&& exists|scr: StageCommandResult, mid: Stage| #[trigger] played(w0.stages@[s as int], mid, pid, action, senses, scr)
                        && scr.transition is Some
                        && res.limbos@ == scr.limbos@
                    &&& is_reset(w1.player_by_id@[pid].last_avatar)
                    &&& g.status == GameOverStatus::Win
                    &&& s == w0.stages@.len() - 1
                    &&& !w1.stages@[s as int].avatar_trackers@.contains_key(pid)
                    &&& !dead_in(res.limbos@, pid) ==> w1.player_by_id@[pid].stage is None
                        && w1.player_by_id@[pid].gameover == Some(g)
                },
            }
        },
    }
}

/// A player that reaches the orb leaves its avatar's past behind: the avatar
/// the next stage welcomes, and the one the player keeps, have full health
/// and focus, are not tired and carry no transition, whatever the avatar
/// went through on the stage it left.
pub proof fn lemma_transition_starts_afresh(
    w0: World,
    w1: World,
    pid: PlayerId,
    action: ClientAction,
    senses: Senses,
    r: Result<CommandResult, WorldError>,
)
    requires
        command_outcome(w0, w1, pid, action, senses, r),
        r matches Ok(res) && (res.outcome is Transition || res.outcome is Gameover),
    ensures
        w1.player_by_id@[pid].last_avatar.hp == HP_MAX,
        w1.player_by_id@[pid].last_avatar.focus == FOCUS_MAX,
        !w1.player_by_id@[pid].last_avatar.tired,
        w1.player_by_id@[pid].last_avatar.transition is None,
        r matches Ok(res) && (res.outcome matches CommandResultOutcome::Transition { stage_id, .. }
            ==> w1.stages@[stage_id as int].diffs@.last().new_avatar matches Some(w)
            && w.hp == HP_MAX && w.focus == FOCUS_MAX && w.transition is None),
{
}

impl World {
    proof fn lemma_stage_replaced(&self, before: Seq<Stage>, k: int)
        requires
            self.stages@.len() == before.len(),
            0 <= k < before.len(),
            self.stages@[k].wf(),
            forall|i: int| 0 <= i < before.len() ==> #[trigger] before[i].wf(),
            forall|i: int| 0 <= i < before.len() && i != k ==> self.stages@[i] == before[i],
        ensures
            forall|i: int| 0 <= i < self.stages@.len() ==> #[trigger] self.stages@[i].wf(),
    {
        assert forall|i: int| 0 <= i < self.stages@.len() implies #[trigger] self.stages@[i].wf() by {
            if i != k {
                assert(self.stages@[i] == before[i]);
            }
        }
    }

    /// The players whose avatar died for good lose their stage and get their
    /// game over.
    fn handle_limbos(&mut self, limbos: &Vec<Limbo>, stage_id: StageId)
        requires
            old(self).wf(),
            stage_id < old(self).stages@.len(),
        ensures
            final(self).wf(),
            final(self).stages@ == old(self).stages@,
            final(self).name_gen == old(self).name_gen,
            final(self).player_by_id@.dom() == old(self).player_by_id@.dom(),
            forall|p: PlayerId| #[trigger] final(self).player_by_id@.contains_key(p) ==> {
                let before = old(self).player_by_id@[p];
                let after = final(self).player_by_id@[p];
                if dead_in(limbos@, p) {
                    &&& after.stage is None
                    &&& after.gameover matches Some(g) && g.status == GameOverStatus::Dead
                        && g.turns == before.last_avatar.turns && g.stage == stage_id % 256
                    &&& after.id == before.id && after.name == before.name && after.last_avatar == before.last_avatar
                } else {
                    after == before
                }
            },
    {
        let n = limbos.len();
        let mut i: usize = 0;
        while i < n
            invariant
                n == limbos@.len(),
                i <= n,
                old(self).wf(),
                stage_id < old(self).stages@.len(),
                self.stages@ == old(self).stages@,
                self.name_gen == old(self).name_gen,
                self.player_by_id@.dom() == old(self).player_by_id@.dom(),
                forall|p: PlayerId| #[trigger] self.player_by_id@.contains_key(p) ==> {
                    let before = old(self).player_by_id@[p];
                    let after = self.player_by_id@[p];
                    if dead_in(limbos@.subrange(0, i as int), p) {
                        &&& after.stage is None
                        &&& after.gameover matches Some(g) && g.status == GameOverStatus::Dead
                            && g.turns == before.last_avatar.turns && g.stage == stage_id % 256
                        &&& after.id == before.id && after.name == before.name && after.last_avatar == before.last_avatar
                    } else {
                        after == before
                    }
                },
            decreases n - i,
        {
            if let Limbo::Dead(avatar) = &limbos[i] {
                let pid = avatar.player_id;
                if let Some(mut player) = self.player_by_id.remove(&pid) {
                    player.gameover = Some(GameOver::new(&player.last_avatar, GameOverStatus::Dead, stage_id));
                    player.stage = None;
                    self.player_by_id.insert(pid, player);
                }
            }
            proof {
                assert forall|p: PlayerId| #[trigger] dead_in(limbos@.subrange(0, i + 1), p)
                    <==> dead_in(limbos@.subrange(0, i as int), p) || (limbos@[i as int] matches Limbo::Dead(a) && a.player_id == p) by {
                    if dead_in(limbos@.subrange(0, i + 1), p) {
                        let j = choose|j: int| 0 <= j < i + 1 && (#[trigger] limbos@.subrange(0, i + 1)[j] matches Limbo::Dead(a) && a.player_id == p);
                        if j < i {
                            assert(limbos@.subrange(0, i as int)[j] == limbos@.subrange(0, i + 1)[j]);
                        }
                    }
                    if dead_in(limbos@.subrange(0, i as int), p) {
                        let j = choose|j: int| 0 <= j < i && (#[trigger] limbos@.subrange(0, i as int)[j] matches Limbo::Dead(a) && a.player_id == p);
                        assert(limbos@.subrange(0, i + 1)[j] == limbos@.subrange(0, i as int)[j]);
                    }
                    if limbos@[i as int] matches Limbo::Dead(a) && a.player_id == p {
                        assert(limbos@.subrange(0, i + 1)[i as int] == limbos@[i as int]);
                    }
                }
            }
            i = i + 1;
        }
        proof {
            assert(limbos@.subrange(0, n as int) =~= limbos@);
        }
    }

    /// The player that reached the orb goes on to the next stage, or wins
    /// the game after the last one; its avatar starts afresh.
    fn handle_transition(&mut self, pid: PlayerId, transition: Transition, senses: Senses) -> (r: Result<CommandResult, WorldError>)
        requires
            old(self).wf(),
        ensures
            final(self).wf(),
            final(self).stages@.len() == old(self).stages@.len(),
            final(self).player_by_id@.dom() == old(self).player_by_id@.dom(),
            !old(self).player_by_id@.contains_key(pid) ==> r == Err::<CommandResult, WorldError>(WorldError::NoPlayer),
            old(self).player_by_id@.contains_key(pid) && old(self).player_by_id@[pid].stage is None
                ==> r == Err::<CommandResult, WorldError>(WorldError::NotInStage),
            r == Err::<CommandResult, WorldError>(WorldError::NoPlayer) ==> !old(self).player_by_id@.contains_key(pid),
            r == Err::<CommandResult, WorldError>(WorldError::NotInStage) ==> old(self).player_by_id@.contains_key(pid)
                && old(self).player_by_id@[pid].stage is None,
            r == Err::<CommandResult, WorldError>(WorldError::NoStage) ==> old(self).player_by_id@.contains_key(pid)
                && match old(self).player_by_id@[pid].stage {
                    Some(s) => s >= old(self).stages@.len(),
                    None => false,
                },
            r == Err::<CommandResult, WorldError>(WorldError::NoAvatar) ==> old(self).player_by_id@.contains_key(pid)
                && match old(self).player_by_id@[pid].stage {
                    Some(s) => s < old(self).stages@.len() && !final(self).stages@[s as int].avatar_trackers@.contains_key(pid),
                    None => false,
                },
            r == Err::<CommandResult, WorldError>(WorldError::TimelineExhausted)
                ==> exists|k: int| 0 <= k < final(self).stages@.len() && #[trigger] final(self).stages@[k].head_turn >= u64::MAX - 2,
            r is Err ==> r == Err::<CommandResult, WorldError>(WorldError::NoPlayer)
                || r == Err::<CommandResult, WorldError>(WorldError::NotInStage)
                || r == Err::<CommandResult, WorldError>(WorldError::NoStage)
                || r == Err::<CommandResult, WorldError>(WorldError::NoAvatar)
                || r == Err::<CommandResult, WorldError>(WorldError::TimelineExhausted),
            r is Ok ==> final(self).player_by_id@[pid].last_avatar.is_fresh(
                avatar_on_stage(*old(self), pid).player_id, avatar_on_stage(*old(self), pid).turns),
            r matches Ok(res) ==> match res.outcome {
                CommandResultOutcome::Transition { stage_id, .. } => final(self).stages@[stage_id as int].diffs@.last().new_avatar
                    matches Some(w) && w.is_fresh(avatar_on_stage(*old(self), pid).player_id, avatar_on_stage(*old(self), pid).turns),
                _ => true,
            },
            r matches Ok(res) ==> match res.outcome {
                CommandResultOutcome::Gameover(g) => g.status == GameOverStatus::Win
                    && final(self).player_by_id@[pid].stage is None
                    && final(self).player_by_id@[pid].gameover == Some(g)
                    && old(self).player_by_id@[pid].stage == Some((old(self).stages@.len() - 1) as usize)
                    && res.limbos@.len() == 0
                    && res.timeline_updates@.len() == 0
                    && !final(self).stages@[old(self).stages@.len() - 1].avatar_trackers@.contains_key(pid),
                CommandResultOutcome::Transition { stage_id, stage_turn, timeline, .. } =>
                    stage_id >= 1
                    && stage_turn == final(self).stages@[stage_id as int].head_turn
                    && timeline.head == final(self).stages@[stage_id as int].head_turn
                    && timeline.tail == final(self).stages@[stage_id as int].spec_tail_turn()
                    && final(self).stages@[stage_id as int].avatar_trackers@[pid].turn == stage_turn
                    && res.timeline_updates@ == seq![(stage_id, timeline)]
                    && final(self).player_by_id@[pid].stage == Some(stage_id)
                    && old(self).player_by_id@[pid].stage == Some((stage_id - 1) as usize)
                    && final(self).stages@[stage_id as int].avatar_trackers@.contains_key(pid)
                    && !final(self).stages@[stage_id - 1].avatar_trackers@.contains_key(pid),
                _ => false,
            },
    {
        let mut player = match self.player_by_id.remove(&pid) {
            Some(p) => p,
            None => return Err(WorldError::NoPlayer),
        };
        let stage_id = match player.stage {
            Some(s) => s,
            None => {
                self.player_by_id.insert(pid, player);
                proof {
                    assert(self.player_by_id@.dom() =~= old(self).player_by_id@.dom());
                }
                return Err(WorldError::NotInStage);
            },
        };
        if stage_id >= self.stages.len() {
            self.player_by_id.insert(pid, player);
            proof {
                assert(self.player_by_id@.dom() =~= old(self).player_by_id@.dom());
            }
            return Err(WorldError::NoStage);
        }
        let ghost before = self.stages@;
        let removed = self.stages[stage_id].remove_player(pid);
        proof {
            self.lemma_stage_replaced(before, stage_id as int);
        }
        let mut avatar = match removed {
            Some(a) => a,
            None => {
                self.player_by_id.insert(pid, player);
                proof {
                    assert(self.player_by_id@.dom() =~= old(self).player_by_id@.dom());
                }
                return Err(WorldError::NoAvatar);
            },
        };
        avatar.reset();
        player.last_avatar = avatar;
        let ghost before = self.stages@;
        let limbos_from_leave = self.stages[stage_id].handle_limbo();
        proof {
            self.lemma_stage_replaced(before, stage_id as int);
        }
        match find_destination(&self.stages, &transition, stage_id) {
            TransitionDestination::End => {
                player.stage = None;
                let gameover = GameOver::new(&player.last_avatar, GameOverStatus::Win, stage_id);
                player.gameover = Some(gameover);
                self.player_by_id.insert(pid, player);
                proof {
                    assert(self.player_by_id@.dom() =~= old(self).player_by_id@.dom());
                }
                Ok(CommandResult { limbos: Vec::new(), timeline_updates: Vec::new(), outcome: CommandResultOutcome::Gameover(gameover) })
            },
            TransitionDestination::Stage(next_id) => {
                player.stage = Some(next_id);
                if self.stages[next_id].head_turn >= u64::MAX - 2 {
                    self.player_by_id.insert(pid, player);
                    proof {
                        assert(self.player_by_id@.dom() =~= old(self).player_by_id@.dom());
                    }
                    return Err(WorldError::TimelineExhausted);
                }
                let ghost before = self.stages@;
                self.stages[next_id].add_player(&player);
                proof {
                    self.lemma_stage_replaced(before, next_id as int);
                }
                let info = match self.stages[next_id].gather_info(pid, &senses) {
                    Ok(info) => Some(info),
                    Err(_) => None,
                };
                let timeline = self.stages[next_id].timeline();
                let stage_turn = self.stages[next_id].head_turn;
                let stage_info = StageInfo::from_template(&self.stages[next_id].template);
                let mut limbos: Vec<Limbo> = Vec::new();
                let mut leave = limbos_from_leave;
                limbos.append(&mut leave);
                self.player_by_id.insert(pid, player);
                proof {
                    assert(self.player_by_id@.dom() =~= old(self).player_by_id@.dom());
                }
                let mut timeline_updates: Vec<(StageId, Timeline)> = Vec::new();
                timeline_updates.push((next_id, timeline));
                Ok(CommandResult {
                    limbos,
                    timeline_updates,
                    outcome: CommandResultOutcome::Transition { stage_id: next_id, stage_info, stage_turn, info, timeline },
                })
            },
        }
    }

    /// The player's command, played on its stage; reaching the orb takes it
    /// to the next stage.
    pub fn add_command(&mut self, pid: PlayerId, action: ClientAction, senses: Senses) -> (r: Result<CommandResult, WorldError>)
        requires
            old(self).wf(),
        ensures
            final(self).wf(),
            command_outcome(*old(self), *final(self), pid, action, senses, r),
    {
        let stage_id = match self.player_by_id.get(&pid) {
            None => return Err(WorldError::NoPlayer),
            Some(player) => match player.stage {
                None => return Err(WorldError::NotInStage),
                Some(s) => s,
            },
        };
        if stage_id >= self.stages.len() {
            return Err(WorldError::NoStage);
        }
        if self.stages[stage_id].head_turn >= u64::MAX - 2 {
            return Err(WorldError::TimelineExhausted);
        }
        let ghost before = self.stages@;
        let scr = self.stages[stage_id].add_command(pid, action, senses);
        proof {
            self.lemma_stage_replaced(before, stage_id as int);
        }
        let scr = match scr {
            Ok(scr) => scr,
            Err(e) => {
                proof {
                    if !old(self).stages@[stage_id as int].avatar_trackers@.contains_key(pid) {
                        assert(self.stages@ =~= old(self).stages@);
                    } else {
                        assert(e == StageError::MissingState);
                        assert(Stage::lacks_avatar(self.stages@[stage_id as int], pid,
                            (old(self).stages@[stage_id as int].avatar_trackers@[pid].turn + 1) as u64));
                    }
                }
                return Err(WorldError::Stage(e));
            },
        };
        let ghost sres = scr;
        let ghost played_stage = self.stages@[stage_id as int];
        let mut timeline_updates: Vec<(StageId, Timeline)> = Vec::new();
        timeline_updates.push((stage_id, scr.timeline));
        let result = match scr.transition {
            Some(transition) => {
                proof {
                    assert(self.player_by_id@.contains_key(pid));
                    assert(self.player_by_id@[pid].stage == Some(stage_id));
                }
                match self.handle_transition(pid, transition, senses) {
                    Ok(tr_scr) => {
                        let mut tr_scr = tr_scr;
                        let mut more = scr.limbos;
                        tr_scr.limbos.append(&mut more);
                        tr_scr.timeline_updates.append(&mut timeline_updates);
                        tr_scr
                    },
                    Err(e) => {
                        proof {
                            assert(e == WorldError::NoAvatar || e == WorldError::TimelineExhausted);
                            if e == WorldError::NoAvatar {
                                assert(!self.stages@[stage_id as int].avatar_trackers@.contains_key(pid));
                            }
                            if e == WorldError::TimelineExhausted {
                                let k = choose|k: int| 0 <= k < self.stages@.len() && #[trigger] self.stages@[k].head_turn >= u64::MAX - 2;
                                assert(self.stages@[k].head_turn >= u64::MAX - 2);
                            }
                        }
                        return Err(e);
                    },
                }
            },
            None => CommandResult {
                limbos: scr.limbos,
                timeline_updates,
                outcome: CommandResultOutcome::Turn {
                    stage: stage_id,
                    stage_turn: scr.stage_turn,
                    info: Some(scr.senses_info),
                    action: scr.action,
                    events: scr.events,
                    timeline: scr.timeline,
                },
            },
        };
        self.handle_limbos(&result.limbos, stage_id);
        proof {
            assert(played(old(self).stages@[stage_id as int], played_stage, pid, action, senses, sres));
            match result.outcome {
                CommandResultOutcome::Turn { .. } => {
                    assert(self.stages@[stage_id as int] == played_stage);
                },
                _ => {
                    assert(result.limbos@.subrange(result.limbos@.len() - sres.limbos@.len(), result.limbos@.len() as int) =~= sres.limbos@);
                },
            }
        }
        Ok(result)
    }

    /// What each player of the stage perceives at its turn; nothing for a
    /// stage that does not exist.
    pub fn get_all_infos_for_stage(&self, stage: StageId) -> (r: Vec<(PlayerId, StageTurn, SensesInfo)>)
        requires
            self.wf(),
        ensures
            stage >= self.stages@.len() ==> r@.len() == 0,
            stage < self.stages@.len() ==> r@.len() == self.stages@[stage as int].avatar_trackers@.dom().len()
                && (forall|i: int| 0 <= i < r@.len() ==> #[trigger] self.stages@[stage as int].avatar_trackers@.contains_key(r@[i].0)
                && r@[i].1 == self.stages@[stage as int].avatar_trackers@[r@[i].0].turn)
                && forall|i: int| 0 <= i < r@.len() ==> #[trigger] reported_info(self.stages@[stage as int], r@[i].0, r@[i].1, r@[i].2),
    {
        if stage < self.stages.len() {
            self.stages[stage].get_all_infos()
        } else {
            Vec::new()
        }
    }
}

} // verus!
