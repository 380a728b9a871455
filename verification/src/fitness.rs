//! Fitness metrics of organisms and statistics of lineages.

use vstd::prelude::*;
use crate::types::LineageId;

verus! {

/// Fitness metrics for an organism.
#[derive(Debug, Clone, Copy, PartialEq, Eq, Structural)]
pub struct FitnessMetrics {
    /// Number of ticks survived.
    pub lifetime: u64,
    /// Net energy gained (energy at the end minus initial energy).
    pub net_energy: i64,
    /// Total offspring produced.
    pub offspring_count: u32,
    /// Number of distinct tiles visited.
    pub tiles_explored: u32,
    /// Number of successful attacks.
    pub kills: u32,
    /// Number of times the organism ate.
    pub times_eaten: u32,
    /// Total damage dealt.
    pub damage_dealt: i64,
    /// Total damage received.
    pub damage_received: i64,
}

/// All metrics zero.
pub open spec fn zero_metrics() -> FitnessMetrics {
    FitnessMetrics {
        lifetime: 0,
        net_energy: 0,
        offspring_count: 0,
        tiles_explored: 0,
        kills: 0,
        times_eaten: 0,
        damage_dealt: 0,
        damage_received: 0,
    }
}

/// `a` is strictly better than `b` in at least one of the four objectives
/// (lifetime, net energy, offspring, exploration).
pub open spec fn better_in_any(a: FitnessMetrics, b: FitnessMetrics) -> bool {
    a.lifetime > b.lifetime || a.net_energy > b.net_energy || a.offspring_count > b.offspring_count
        || a.tiles_explored > b.tiles_explored
}

/// `a` Pareto-dominates `b`: better in some objective and worse in none.
pub open spec fn spec_dominates(a: FitnessMetrics, b: FitnessMetrics) -> bool {
    better_in_any(a, b) && !better_in_any(b, a)
}

impl Default for FitnessMetrics {
    fn default() -> (r: FitnessMetrics)
        ensures
            r == zero_metrics(),
    {
        FitnessMetrics {
            lifetime: 0,
            net_energy: 0,
            offspring_count: 0,
            tiles_explored: 0,
            kills: 0,
            times_eaten: 0,
            damage_dealt: 0,
            damage_received: 0,
        }
    }
}

impl FitnessMetrics {
    pub fn new() -> (r: FitnessMetrics)
        ensures
            r == zero_metrics(),
    {
        FitnessMetrics::default()
    }

    /// Whether this organism Pareto-dominates another on lifetime, net
    /// energy, offspring count and tiles explored.
    pub fn dominates(&self, other: &FitnessMetrics) -> (r: bool)
        ensures
            r == spec_dominates(*self, *other),
    {
        let mut better = false;
        let mut worse = false;

        if self.lifetime > other.lifetime {
            better = true;
        } else if self.lifetime < other.lifetime {
            worse = true;
        }

        if self.net_energy > other.net_energy {
            better = true;
        } else if self.net_energy < other.net_energy {
            worse = true;
        }

        if self.offspring_count > other.offspring_count {
            better = true;
        } else if self.offspring_count < other.offspring_count {
            worse = true;
        }

        if self.tiles_explored > other.tiles_explored {
            better = true;
        } else if self.tiles_explored < other.tiles_explored {
            worse = true;
        }

        better && !worse
    }
}

/// Dominance means being at least as good in every objective and strictly
/// better in one.
pub proof fn lemma_dominates_componentwise(a: FitnessMetrics, b: FitnessMetrics)
    ensures
        spec_dominates(a, b) <==> {
            &&& a.lifetime >= b.lifetime
            &&& a.net_energy >= b.net_energy
            &&& a.offspring_count >= b.offspring_count
            &&& a.tiles_explored >= b.tiles_explored
            &&& (a.lifetime != b.lifetime || a.net_energy != b.net_energy
                || a.offspring_count != b.offspring_count || a.tiles_explored != b.tiles_explored)
        },
{
}

/// No organism dominates itself.
pub proof fn lemma_dominates_irreflexive(a: FitnessMetrics)
    ensures
        !spec_dominates(a, a),
{
}

/// Dominance is asymmetric: two organisms never dominate each other.
pub proof fn lemma_dominates_asymmetric(a: FitnessMetrics, b: FitnessMetrics)
    ensures
        spec_dominates(a, b) ==> !spec_dominates(b, a),
{
}

/// Dominance is transitive.
pub proof fn lemma_dominates_transitive(a: FitnessMetrics, b: FitnessMetrics, c: FitnessMetrics)
    ensures
        spec_dominates(a, b) && spec_dominates(b, c) ==> spec_dominates(a, c),
{
}

/// Lineage statistics aggregated across the organisms of a lineage.
#[derive(Debug, Clone, Copy, PartialEq, Eq, Structural)]
pub struct LineageStats {
    pub lineage_id: LineageId,
    pub total_organisms: u32,
    pub avg_fitness: FitnessMetrics,
    pub best_fitness: FitnessMetrics,
    pub generation: u32,
}

impl LineageStats {
    /// Empty statistics for a lineage.
    pub fn new(lineage_id: LineageId) -> (r: LineageStats)
        ensures
            r.lineage_id == lineage_id,
            r.total_organisms == 0,
            r.avg_fitness == zero_metrics(),
            r.best_fitness == zero_metrics(),
            r.generation == 0,
    {
        LineageStats {
            lineage_id,
            total_organisms: 0,
            avg_fitness: FitnessMetrics::new(),
            best_fitness: FitnessMetrics::new(),
            generation: 0,
        }
    }
}

} // verus!
