//! Health recommendations, performance analysis and resource predictions.
use std::sync::Arc;
use vstd::prelude::*;

use crate::clock::{now_rfc3339, rfc3339_utc};
use crate::services::wsl::WslService;
use crate::text::{chars_of, contains, contains_seq, lower, to_lowercase};

verus! {

broadcast use vstd::string::group_string_axioms;

#[derive(Debug, Clone)]
pub struct Recommendation {
    pub category: String,
    pub priority: String,
    pub title: String,
    pub description: String,
    pub action: String,
    pub expected_impact: String,
}

#[derive(Debug, Clone)]
pub struct WslRecommendations {
    pub timestamp: String,
    pub distribution_name: String,
    pub score: i32,
    pub items: Vec<Recommendation>,
}

#[derive(Debug, Clone)]
pub struct PerformanceAnalysis {
    pub timestamp: String,
    pub distribution_name: String,
    pub overall_score: i32,
    pub insights: Vec<String>,
    pub bottlenecks: Vec<String>,
    pub prediction: String,
}

/// The resources a workload is expected to need.  The confidence is given in
/// hundredths.
#[derive(Debug, Clone)]
pub struct ResourcePrediction {
    pub workload: String,
    pub distribution_name: String,
    pub recommended_memory_gb: i32,
    pub recommended_cpu_cores: i32,
    pub recommended_disk_gb: i64,
    pub confidence_percent: u32,
    pub reasoning: String,
}

pub struct IntelligenceService {
    wsl: Arc<WslService>,
}

pub open spec fn strings_view(v: Seq<String>) -> Seq<Seq<char>> {
    v.map_values(|s: String| s@)
}

pub open spec fn recommendation_view(r: Recommendation) -> Seq<Seq<char>> {
    seq![r.category@, r.priority@, r.title@, r.description@, r.action@, r.expected_impact@]
}

/// The recommendations given: more memory, and DNS tunneling.
pub open spec fn recommendations_spec() -> Seq<Seq<Seq<char>>> {
    seq![
        seq![
            "Memory"@,
            "High"@,
            "High Memory Usage Detected"@,
            "Current memory usage is 85%."@,
            "Add 'memory=8GB' to .wslconfig"@,
            "Improved performance and reduced swapping"@,
        ],
        seq![
            "Network"@,
            "Low"@,
            "Enable DNS Tunneling"@,
            "Improve network performance."@,
            "Add 'dnsTunneling=true' to .wslconfig"@,
            "Faster DNS resolution"@,
        ],
    ]
}

/// The distribution a report is about: the one asked for, or `All`.
pub open spec fn distribution_name_spec(distro: Option<&str>) -> Seq<char> {
    match distro {
        Some(d) => d@,
        None => "All"@,
    }
}

/// The resources for a workload whose description in lower case is `wl`:
/// memory and disk in GB, CPU cores, confidence in hundredths, and the reason.
pub open spec fn workload_profile(wl: Seq<char>) -> (i32, i32, i64, u32, Seq<char>) {
    if contains_seq(wl, "docker"@) || contains_seq(wl, "container"@) {
        (16, 6, 100, 90, "Container workloads require substantial resources"@)
    } else if contains_seq(wl, "compile"@) || contains_seq(wl, "build"@) {
        (8, 4, 50, 85, "Build workloads are CPU and memory intensive"@)
    } else if contains_seq(wl, "data"@) || contains_seq(wl, "ml"@) || contains_seq(wl, "ai"@) {
        (32, 8, 200, 88, "Data science and ML workloads are resource intensive"@)
    } else if contains_seq(wl, "web"@) || contains_seq(wl, "server"@) {
        (4, 2, 20, 80, "Web servers need moderate resources"@)
    } else {
        (4, 2, 30, 60, "General purpose workload estimation"@)
    }
}

/// What a workload is predicted, by the keywords its lower-cased description
/// `wl` holds: `docker` or `container` first, then `compile` or `build`,
/// then `data`, `ml` or `ai`, then `web` or `server`; anything else gets the
/// general estimate.
pub proof fn lemma_workload_by_keywords(wl: Seq<char>)
    ensures
        contains_seq(wl, "docker"@) || contains_seq(wl, "container"@) ==> workload_profile(wl) == (
            16i32,
            6i32,
            100i64,
            90u32,
            "Container workloads require substantial resources"@,
        ),
        !contains_seq(wl, "docker"@) && !contains_seq(wl, "container"@) && (contains_seq(wl, "compile"@)
            || contains_seq(wl, "build"@)) ==> workload_profile(wl) == (
            8i32,
            4i32,
            50i64,
            85u32,
            "Build workloads are CPU and memory intensive"@,
        ),
        !contains_seq(wl, "docker"@) && !contains_seq(wl, "container"@) && !contains_seq(wl, "compile"@)
            && !contains_seq(wl, "build"@) && (contains_seq(wl, "data"@) || contains_seq(wl, "ml"@)
            || contains_seq(wl, "ai"@)) ==> workload_profile(wl) == (
            32i32,
            8i32,
            200i64,
            88u32,
            "Data science and ML workloads are resource intensive"@,
        ),
        !contains_seq(wl, "docker"@) && !contains_seq(wl, "container"@) && !contains_seq(wl, "compile"@)
            && !contains_seq(wl, "build"@) && !contains_seq(wl, "data"@) && !contains_seq(wl, "ml"@)
            && !contains_seq(wl, "ai"@) && (contains_seq(wl, "web"@) || contains_seq(wl, "server"@))
            ==> workload_profile(wl) == (4i32, 2i32, 20i64, 80u32, "Web servers need moderate resources"@),
        !contains_seq(wl, "docker"@) && !contains_seq(wl, "container"@) && !contains_seq(wl, "compile"@)
            && !contains_seq(wl, "build"@) && !contains_seq(wl, "data"@) && !contains_seq(wl, "ml"@)
            && !contains_seq(wl, "ai"@) && !contains_seq(wl, "web"@) && !contains_seq(wl, "server"@)
            ==> workload_profile(wl) == (4i32, 2i32, 30i64, 60u32, "General purpose workload estimation"@),
{
}

fn distribution_name(distro: Option<&str>) -> (s: String)
    ensures
        s@ == distribution_name_spec(distro),
{
    match distro {
        Some(d) => String::from_str(d),
        None => String::from_str("All"),
    }
}

fn has(t: &Vec<char>, word: &str) -> (b: bool)
    ensures
        b == contains_seq(t@, word@),
{
    let w = chars_of(word);
    contains(t, &w)
}

impl IntelligenceService {
    /// The WSL service the service was made with.
    pub closed spec fn service(&self) -> Arc<WslService> {
        self.wsl
    }

    pub fn new(wsl: Arc<WslService>) -> (s: Self)
        ensures
            s.service() == wsl,
    {
        IntelligenceService { wsl }
    }

    /// Optimization recommendations for `distro` (or all distributions),
    /// stamped with the current time (see `recommendations_at`).
    pub fn get_recommendations(&self, distro: Option<&str>) -> (r: WslRecommendations)
        ensures
            r.distribution_name@ == distribution_name_spec(distro),
            r.score == 75,
            r.items@.map_values(|i: Recommendation| recommendation_view(i)) == recommendations_spec(),
            rfc3339_utc(r.timestamp@),
    {
        let now = now_rfc3339();
        Self::recommendations_at(distro, now)
    }

    /// Optimization recommendations for `distro` (or all distributions),
    /// stamped `timestamp`: a score of 75 and the two fixed recommendations.
    pub fn recommendations_at(distro: Option<&str>, timestamp: String) -> (r: WslRecommendations)
        ensures
            r.timestamp@ == timestamp@,
            r.distribution_name@ == distribution_name_spec(distro),
            r.score == 75,
            r.items@.map_values(|i: Recommendation| recommendation_view(i)) == recommendations_spec(),
    {
        let mut items: Vec<Recommendation> = Vec::new();
        items.push(
            Recommendation {
                category: String::from_str("Memory"),
                priority: String::from_str("High"),
                title: String::from_str("High Memory Usage Detected"),
                description: String::from_str("Current memory usage is 85%."),
                action: String::from_str("Add 'memory=8GB' to .wslconfig"),
                expected_impact: String::from_str("Improved performance and reduced swapping"),
            },
        );
        items.push(
            Recommendation {
                category: String::from_str("Network"),
                priority: String::from_str("Low"),
                title: String::from_str("Enable DNS Tunneling"),
                description: String::from_str("Improve network performance."),
                action: String::from_str("Add 'dnsTunneling=true' to .wslconfig"),
                expected_impact: String::from_str("Faster DNS resolution"),
            },
        );
        assert(items@.map_values(|i: Recommendation| recommendation_view(i)) =~= recommendations_spec());
        WslRecommendations {
            timestamp,
            distribution_name: distribution_name(distro),
            score: 75,
            items,
        }
    }

    /// A performance analysis of `distro` (or all distributions), stamped
    /// with the current time (see `analysis_at`).
    pub fn analyze_performance(&self, distro: Option<&str>) -> (a: PerformanceAnalysis)
        ensures
            a.distribution_name@ == distribution_name_spec(distro),
            a.overall_score == 75,
            strings_view(a.insights@) == seq![
                "CPU usage is within normal range."@,
                "Memory pressure detected."@,
                "Disk space is adequate."@,
            ],
            strings_view(a.bottlenecks@) == seq!["Memory"@],
            a.prediction@ == "Health score: 75/100"@,
            rfc3339_utc(a.timestamp@),
    {
        let now = now_rfc3339();
        Self::analysis_at(distro, now)
    }

    /// A performance analysis of `distro` (or all distributions), stamped
    /// `timestamp`: a score of 75, three insights and memory as bottleneck.
    pub fn analysis_at(distro: Option<&str>, timestamp: String) -> (a: PerformanceAnalysis)
        ensures
            a.timestamp@ == timestamp@,
            a.distribution_name@ == distribution_name_spec(distro),
            a.overall_score == 75,
            strings_view(a.insights@) == seq![
                "CPU usage is within normal range."@,
                "Memory pressure detected."@,
                "Disk space is adequate."@,
            ],
            strings_view(a.bottlenecks@) == seq!["Memory"@],
            a.prediction@ == "Health score: 75/100"@,
    {
        let mut insights: Vec<String> = Vec::new();
        insights.push(String::from_str("CPU usage is within normal range."));
        insights.push(String::from_str("Memory pressure detected."));
        insights.push(String::from_str("Disk space is adequate."));
        let mut bottlenecks: Vec<String> = Vec::new();
        bottlenecks.push(String::from_str("Memory"));
        assert(strings_view(insights@) =~= seq![
            "CPU usage is within normal range."@,
            "Memory pressure detected."@,
            "Disk space is adequate."@,
        ]);
        assert(strings_view(bottlenecks@) =~= seq!["Memory"@]);
        PerformanceAnalysis {
            timestamp,
            distribution_name: distribution_name(distro),
            overall_score: 75,
            insights,
            bottlenecks,
            prediction: String::from_str("Health score: 75/100"),
        }
    }

    /// The resources that `workload` on `distro` is expected to need (see
    /// `workload_profile`, applied to the workload in lower case).
    pub fn predict_resources(&self, distro: &str, workload: &str) -> (p: ResourcePrediction)
        ensures
            p.workload@ == workload@,
            p.distribution_name@ == distro@,
            (p.recommended_memory_gb, p.recommended_cpu_cores, p.recommended_disk_gb,
                p.confidence_percent, p.reasoning@) == workload_profile(lower(workload@)),
    {
        let lowered = to_lowercase(workload);
        let wl = chars_of(lowered.as_str());
        let (mem, cpu, disk, confidence, reasoning): (i32, i32, i64, u32, &str) = if has(&wl, "docker")
            || has(&wl, "container") {
            (16, 6, 100, 90, "Container workloads require substantial resources")
        } else if has(&wl, "compile") || has(&wl, "build") {
            (8, 4, 50, 85, "Build workloads are CPU and memory intensive")
        } else if has(&wl, "data") || has(&wl, "ml") || has(&wl, "ai") {
            (32, 8, 200, 88, "Data science and ML workloads are resource intensive")
        } else if has(&wl, "web") || has(&wl, "server") {
            (4, 2, 20, 80, "Web servers need moderate resources")
        } else {
            (4, 2, 30, 60, "General purpose workload estimation")
        };
        ResourcePrediction {
            workload: String::from_str(workload),
            distribution_name: String::from_str(distro),
            recommended_memory_gb: mem,
            recommended_cpu_cores: cpu,
            recommended_disk_gb: disk,
            confidence_percent: confidence,
            reasoning: String::from_str(reasoning),
        }
    }
}

} // verus!
