//! Spawning agents by the scores of files.
use crate::db::ThermalAggregate;
use crate::swarm::agent;
use crate::swarm::agent::{Agent, AgentRole};
use vstd::prelude::*;

verus! {

/// The limits of a spawner.
#[derive(Debug, Clone, Copy)]
pub struct SpawnerConfig {
    pub max_agents_per_command: usize,
    pub max_density_per_file: i32,
    /// One monitor is spawned for this many other agents, none if it is zero.
    pub monitor_ratio: usize,
}

impl Default for SpawnerConfig {
    fn default() -> (r: SpawnerConfig)
        ensures
            r.max_agents_per_command == 100,
            r.max_density_per_file == 5,
            r.monitor_ratio == 10,
    {
        SpawnerConfig { max_agents_per_command: 100, max_density_per_file: 5, monitor_ratio: 10 }
    }
}

/// The part and the file of an agent to spawn.
#[verifier::ext_equal]
pub struct Post {
    pub role: AgentRole,
    pub file: Seq<char>,
}

/// The first `n` values, or all if there are fewer.
pub open spec fn first<A>(s: Seq<A>, n: nat) -> Seq<A> {
    if s.len() > n {
        s.take(n as int)
    } else {
        s
    }
}

/// The posts in the given cool files: those that are neither locked nor full.
pub open spec fn cool_posts(zones: Seq<ThermalAggregate>, max_density: i32) -> Seq<Post>
    decreases zones.len(),
{
    if zones.len() == 0 {
        Seq::empty()
    } else {
        let front = cool_posts(zones.drop_last(), max_density);
        let z = zones.last();
        if !z.is_locked && z.agent_density < max_density {
            front.push(Post { role: AgentRole::CoolZone, file: z.file_path@ })
        } else {
            front
        }
    }
}

/// The posts in the given hot files: those that are not full.
pub open spec fn hot_posts(zones: Seq<ThermalAggregate>, max_density: i32) -> Seq<Post>
    decreases zones.len(),
{
    if zones.len() == 0 {
        Seq::empty()
    } else {
        let front = hot_posts(zones.drop_last(), max_density);
        let z = zones.last();
        if z.agent_density < max_density {
            front.push(Post { role: AgentRole::HotZone, file: z.file_path@ })
        } else {
            front
        }
    }
}

/// The posts of `n` monitors.
pub open spec fn monitor_posts(n: nat) -> Seq<Post> {
    Seq::new(
        n,
        |i: int| Post { role: AgentRole::Monitor, file: agent::monitor_target(i as nat) },
    )
}

/// All posts: cool files within half of the slots, hot files within what is left, and a share
/// of monitors; no more than allowed in all.
pub open spec fn posts(
    c: SpawnerConfig,
    cool: Seq<ThermalAggregate>,
    hot: Seq<ThermalAggregate>,
    slots: nat,
) -> Seq<Post> {
    let a = cool_posts(first(cool, slots / 2), c.max_density_per_file);
    let left = if slots > a.len() {
        (slots - a.len()) as nat
    } else {
        0
    };
    let b = hot_posts(first(hot, left), c.max_density_per_file);
    let n = (a + b).len();
    let m = if c.monitor_ratio > 0 {
        n / c.monitor_ratio as nat
    } else {
        0
    };
    first(a + b + monitor_posts(m), c.max_agents_per_command as nat)
}

/// Whether the agents are fresh, have random ids, and fill the posts.
pub open spec fn fills(agents: Seq<Agent>, posts: Seq<Post>, prompt: Seq<char>) -> bool {
    &&& agents.len() == posts.len()
    &&& forall|i: int|
        0 <= i < agents.len() ==> agent::is_fresh(
            #[trigger] agents[i],
            posts[i].role,
            posts[i].file,
            prompt,
        ) && agent::is_random_id(agents[i].id@)
}

/// Spawns agents.
#[derive(Debug)]
pub struct Spawner {
    pub config: SpawnerConfig,
}

proof fn lemma_cool_len(zones: Seq<ThermalAggregate>, max_density: i32)
    ensures
        cool_posts(zones, max_density).len() <= zones.len(),
    decreases zones.len(),
{
    if zones.len() > 0 {
        lemma_cool_len(zones.drop_last(), max_density);
    }
}

proof fn lemma_hot_len(zones: Seq<ThermalAggregate>, max_density: i32)
    ensures
        hot_posts(zones, max_density).len() <= zones.len(),
    decreases zones.len(),
{
    if zones.len() > 0 {
        lemma_hot_len(zones.drop_last(), max_density);
    }
}

impl Spawner {
    /// A spawner with the given limits.
    pub fn new(config: SpawnerConfig) -> (r: Spawner)
        ensures
            r.config == config,
    {
        Spawner { config }
    }

    /// Spawns agents for the given cool and hot files.
    pub fn spawn_agents(
        &self,
        cool_zones: &[ThermalAggregate],
        hot_zones: &[ThermalAggregate],
        available_slots: usize,
        constitutional_prompt: &str,
    ) -> (r: Vec<Agent>)
        ensures
            fills(
                r@,
                posts(self.config, cool_zones@, hot_zones@, available_slots as nat),
                constitutional_prompt@,
            ),
    {
        let max = self.config.max_density_per_file;
        let ghost cool = first(cool_zones@, (available_slots / 2) as nat);
        let ghost a = cool_posts(cool, max);
        let mut agents: Vec<Agent> = Vec::new();
        let half: usize = available_slots / 2;
        let mut i: usize = 0;
        proof {
            assert(cool.take(0) =~= Seq::<ThermalAggregate>::empty());
        }
        while i < cool_zones.len() && i < half
            invariant
                cool == first(cool_zones@, half as nat),
                max == self.config.max_density_per_file,
                i <= cool.len(),
                agents@.len() <= i,
                fills(agents@, cool_posts(cool.take(i as int), max), constitutional_prompt@),
            decreases cool_zones@.len() - i,
        {
            let zone = &cool_zones[i];
            let ghost before = agents@;
            proof {
                assert(cool.take(i + 1).drop_last() =~= cool.take(i as int));
                assert(cool.take(i + 1).last() == *zone);
            }
            if !zone.is_locked && zone.agent_density < max {
                agents.push(Agent::new_cool(zone.file_path.as_str(), constitutional_prompt));
            }
            i = i + 1;
        }
        proof {
            assert(cool.take(cool.len() as int) =~= cool);
            lemma_cool_len(cool, max);
        }
        let left: usize = available_slots.saturating_sub(agents.len());
        let ghost hot = first(hot_zones@, left as nat);
        let ghost b = hot_posts(hot, max);
        proof {
            assert(hot.take(0) =~= Seq::<ThermalAggregate>::empty());
            assert(a + hot_posts(hot.take(0), max) =~= a);
        }
        let mut j: usize = 0;
        while j < hot_zones.len() && j < left
            invariant
                hot == first(hot_zones@, left as nat),
                max == self.config.max_density_per_file,
                a.len() + left <= available_slots || left == 0,
                j <= hot.len(),
                agents@.len() <= a.len() + j,
                fills(agents@, a + hot_posts(hot.take(j as int), max), constitutional_prompt@),
            decreases hot_zones@.len() - j,
        {
            let zone = &hot_zones[j];
            let ghost before = agents@;
            let ghost sofar = hot_posts(hot.take(j as int), max);
            proof {
                assert(hot.take(j + 1).drop_last() =~= hot.take(j as int));
                assert(hot.take(j + 1).last() == *zone);
            }
            if zone.agent_density < max {
                agents.push(Agent::new_hot(zone.file_path.as_str(), constitutional_prompt));
                proof {
                    let p = Post { role: AgentRole::HotZone, file: zone.file_path@ };
                    assert(a + sofar.push(p) =~= (a + sofar).push(p));
                }
            }
            j = j + 1;
        }
        proof {
            assert(hot.take(hot.len() as int) =~= hot);
        }
        let n: usize = agents.len();
        let m: usize = if self.config.monitor_ratio > 0 {
            n / self.config.monitor_ratio
        } else {
            0
        };
        proof {
            assert((a + b) + monitor_posts(0) =~= a + b);
        }
        let mut k: usize = 0;
        while k < m
            invariant
                k <= m,
                fills(agents@, a + b + monitor_posts(k as nat), constitutional_prompt@),
            decreases m - k,
        {
            agents.push(Agent::new_monitor(k, constitutional_prompt));
            proof {
                let p = Post { role: AgentRole::Monitor, file: agent::monitor_target(k as nat) };
                assert(a + b + monitor_posts((k + 1) as nat) =~= (a + b + monitor_posts(
                    k as nat,
                )).push(p));
            }
            k = k + 1;
        }
        let ghost all = a + b + monitor_posts(m as nat);
        proof {
            assert(all == a + b + monitor_posts(
                if self.config.monitor_ratio > 0 {
                    (a + b).len() / self.config.monitor_ratio as nat
                } else {
                    0
                },
            ));
        }
        if agents.len() > self.config.max_agents_per_command {
            agents.truncate(self.config.max_agents_per_command);
        }
        agents
    }
}

/// No more agents are spawned than a command may have.
pub proof fn law_spawned_agents_are_capped(
    c: SpawnerConfig,
    cool: Seq<ThermalAggregate>,
    hot: Seq<ThermalAggregate>,
    slots: nat,
)
    ensures
        posts(c, cool, hot, slots).len() <= c.max_agents_per_command,
{
}

/// No more agents other than monitors are spawned than there are slots.
pub proof fn law_spawned_agents_fit_slots(
    c: SpawnerConfig,
    cool: Seq<ThermalAggregate>,
    hot: Seq<ThermalAggregate>,
    slots: nat,
)
    ensures
        cool_posts(first(cool, slots / 2), c.max_density_per_file).len() <= slots / 2,
        slots < posts(c, cool, hot, slots).len() ==> posts(c, cool, hot, slots)[slots as int].role
            == AgentRole::Monitor,
{
    let a = cool_posts(first(cool, slots / 2), c.max_density_per_file);
    lemma_cool_len(first(cool, slots / 2), c.max_density_per_file);
    let left = (slots - a.len()) as nat;
    lemma_hot_len(first(hot, left), c.max_density_per_file);
}

} // verus!
