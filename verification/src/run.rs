//! The run coordinator: walks the configured set of agents, one at a time,
//! collecting a series for the primary target URL — and, when a comparison
//! URL is configured, a second series — per agent, and assembles the overall
//! run result into the output document.
//!
//! The coordinator is the decision half of the run loop: `next_job` says
//! which (agent, URL) pair to drive next and `record_series` files a
//! finished series under its agent. The caller performs the drives. A
//! sequential-mode drive failure aborts the whole run: the caller stops
//! asking for jobs, `complete` never becomes true, and no output document
//! can be assembled from the partial state.

use vstd::prelude::*;

use crate::driver::DispatchMode;
use crate::sample::MeasureResponse;
use crate::sample::SampleModel;
use crate::sample::copy_series;
use crate::sample::copy_string;
use crate::sample::series_model;

verus! {

/// The run could not be configured.
#[derive(Debug, PartialEq, Eq)]
pub enum ConfigError {
    /// No agent endpoints were given and none were discovered.
    NoServices,
    /// No target URL was given and none was discovered.
    NoTargetUrl,
}

/// The resolved work of one run: the agent endpoints to measure from, the
/// target URL, and the optional comparison URL.
#[derive(Debug)]
pub struct Jobs {
    /// The endpoints of the measurement agents.
    pub services: Vec<String>,
    /// The URL whose latency the run measures.
    pub target_url: String,
    /// The URL the target is compared against, when one is configured.
    pub comparison_url: Option<String>,
}

/// The run's configuration as handed in by the caller. Optional values fall
/// back to externally discovered ones when absent.
#[derive(Debug)]
pub struct CliArgs {
    /// The URL the agents will measure, when given explicitly.
    pub target_request_url: Option<String>,
    /// The comparison URL, when one is wanted.
    pub comparison_url: Option<String>,
    /// The agent endpoints, when given explicitly.
    pub services: Option<Vec<String>>,
    /// Whether to compute and surface per-agent averages.
    pub average: bool,
    /// How many samples to collect per (agent, URL) pair.
    pub times: usize,
    /// The delay in milliseconds between sequential attempts.
    pub delay: usize,
    /// Where the output document goes, when it is persisted.
    pub output_dir: Option<String>,
    /// Whether to dispatch attempts concurrently ("flood") instead of
    /// sequentially; concurrent dispatch ignores `delay`.
    pub flood: bool,
    /// An optional bound on how many concurrent attempts are in flight at
    /// once. Unset by default: flood mode fans out all `times` attempts at
    /// once, bounded only by `times` itself.
    pub concurrency_cap: Option<usize>,
}

/// The character sequences of a list of names.
pub open spec fn names_model(v: Seq<String>) -> Seq<Seq<char>> {
    v.map_values(|s: String| s@)
}

/// An exact copy of a list of names.
pub fn copy_strings(v: &Vec<String>) -> (r: Vec<String>)
    ensures
        names_model(r@) =~= names_model(v@),
        r@.len() == v@.len(),
{
    let mut out: Vec<String> = Vec::new();
    let mut i: usize = 0;
    while i < v.len()
        invariant
            i <= v@.len(),
            out@.len() == i,
            forall|k: int| 0 <= k < i ==> (#[trigger] out@[k])@ == v@[k]@,
        decreases v@.len() - i,
    {
        out.push(copy_string(&v[i]));
        i = i + 1;
    }
    out
}

impl CliArgs {
    /// Resolves the run's jobs. An explicitly given service list or target
    /// URL wins; otherwise the externally discovered value stands in; when
    /// neither exists the run cannot be configured. The missing service
    /// list is reported before a missing target URL.
    pub fn jobs(&self, discovered_services: Option<Vec<String>>, deployed_url: Option<String>)
        -> (r: Result<Jobs, ConfigError>)
        ensures
            (self.services is None && discovered_services is None) ==> r == Err::<
                Jobs,
                ConfigError,
            >(ConfigError::NoServices),
            (!(self.services is None && discovered_services is None)
                && self.target_request_url is None && deployed_url is None) ==> r == Err::<
                Jobs,
                ConfigError,
            >(ConfigError::NoTargetUrl),
            r matches Ok(j) ==> {
                &&& !(self.services is None && discovered_services is None)
                &&& !(self.target_request_url is None && deployed_url is None)
                &&& names_model(j.services@) == (match self.services {
                    Some(s) => names_model(s@),
                    None => names_model(discovered_services->Some_0@),
                })
                &&& j.target_url@ == (match self.target_request_url {
                    Some(t) => t@,
                    None => deployed_url->Some_0@,
                })
                &&& (j.comparison_url is Some <==> self.comparison_url is Some)
                &&& (self.comparison_url matches Some(c) ==> j.comparison_url matches Some(u)
                    && u@ == c@)
            },
            r is Ok <==> !(self.services is None && discovered_services is None)
                && !(self.target_request_url is None && deployed_url is None),
    {
        let services = match (&self.services, discovered_services) {
            (Some(s), _) => copy_strings(s),
            (None, Some(d)) => d,
            (None, None) => {
                return Err(ConfigError::NoServices);
            },
        };
        let target_url = match (&self.target_request_url, deployed_url) {
            (Some(t), _) => copy_string(t),
            (None, Some(d)) => d,
            (None, None) => {
                return Err(ConfigError::NoTargetUrl);
            },
        };
        let comparison_url = match &self.comparison_url {
            Some(c) => Some(copy_string(c)),
            None => None,
        };
        Ok(Jobs { services, target_url, comparison_url })
    }
}

/// The model of one run-result entry: the agent's endpoint and the models
/// of its recorded samples, in series order.
pub open spec fn entries_model(v: Seq<(String, Vec<MeasureResponse>)>) -> Seq<
    (Seq<char>, Seq<SampleModel>),
> {
    v.map_values(|e: (String, Vec<MeasureResponse>)| (e.0@, series_model(e.1@)))
}

/// The agent keys of a list of run-result entries, in recording order.
pub open spec fn keys_model(v: Seq<(String, Vec<MeasureResponse>)>) -> Seq<Seq<char>> {
    v.map_values(|e: (String, Vec<MeasureResponse>)| e.0@)
}

/// The assembled output document of a completed run: the recorded series
/// per agent for the target URL and, when a comparison URL was configured,
/// the parallel mapping for the comparison URL.
#[derive(Debug)]
pub struct Output {
    /// Mapping from agent endpoint to its series for the target URL.
    pub target_results: Vec<(String, Vec<MeasureResponse>)>,
    /// Mapping from agent endpoint to its series for the comparison URL;
    /// present exactly when a comparison URL was configured.
    pub comparison_results: Option<Vec<(String, Vec<MeasureResponse>)>>,
}

/// The mathematical value of an output document.
#[verifier::ext_equal]
pub ghost struct OutputModel {
    pub target: Seq<(Seq<char>, Seq<SampleModel>)>,
    pub comparison: Option<Seq<(Seq<char>, Seq<SampleModel>)>>,
}

impl View for Output {
    type V = OutputModel;

    open spec fn view(&self) -> OutputModel {
        OutputModel {
            target: entries_model(self.target_results@),
            comparison: match self.comparison_results {
                Some(cr) => Some(entries_model(cr@)),
                None => None,
            },
        }
    }
}

/// One commanded probe drive: collect a series from `agent` for `url`.
/// `comparison` says under which mapping the series will be filed.
pub struct ProbeJob {
    pub agent: String,
    pub url: String,
    pub comparison: bool,
}

/// The run coordinator's state: the resolved jobs, the per-agent series
/// recorded so far, and the run's settings. Agents are processed strictly
/// in list order, target series before comparison series.
#[derive(Debug)]
pub struct Runtime {
    pub jobs: Jobs,
    /// Entries for `jobs.services[0 .. results.len()]`, in that order.
    pub results: Vec<(String, Vec<MeasureResponse>)>,
    /// Present exactly when a comparison URL is configured; trails
    /// `results` by at most the agent currently being processed.
    pub comparison_results: Option<Vec<(String, Vec<MeasureResponse>)>>,
    pub output_dir: Option<String>,
    pub average: bool,
    pub times: usize,
    pub delay: usize,
    pub mode: DispatchMode,
    pub concurrency_cap: Option<usize>,
}

impl Runtime {
    /// The coordinator's invariant: results are filed under the agents'
    /// own endpoints, in list order; the comparison mapping exists exactly
    /// when a comparison URL does, never runs ahead of the target mapping,
    /// and trails it by at most one agent.
    pub open spec fn wf(self) -> bool {
        &&& (self.comparison_results is Some <==> self.jobs.comparison_url is Some)
        &&& self.results@.len() <= self.jobs.services@.len()
        &&& forall|k: int|
            0 <= k < self.results@.len() ==> (#[trigger] self.results@[k]).0@
                == self.jobs.services@[k]@
        &&& match self.comparison_results {
            Some(cr) => {
                &&& cr@.len() <= self.results@.len()
                &&& self.results@.len() <= cr@.len() + 1
                &&& forall|k: int|
                    0 <= k < cr@.len() ==> (#[trigger] cr@[k]).0@ == self.jobs.services@[k]@
            },
            None => true,
        }
    }

    /// Whether every configured agent has all its series recorded.
    pub open spec fn complete(self) -> bool {
        &&& self.results@.len() == self.jobs.services@.len()
        &&& match self.comparison_results {
            Some(cr) => cr@.len() == self.jobs.services@.len(),
            None => true,
        }
    }

    /// Whether the agent currently being processed still owes its
    /// comparison series.
    pub open spec fn pending_comparison(self) -> bool {
        match self.comparison_results {
            Some(cr) => cr@.len() < self.results@.len(),
            None => false,
        }
    }

    /// How many comparison series have been recorded.
    pub open spec fn comparison_len(self) -> int {
        match self.comparison_results {
            Some(cr) => cr@.len() as int,
            None => 0,
        }
    }

    /// A coordinator for the given configuration, with nothing recorded
    /// yet. Fails exactly when the configuration cannot be resolved, with
    /// a missing service list reported before a missing target URL.
    pub fn new(
        args: CliArgs,
        discovered_services: Option<Vec<String>>,
        deployed_url: Option<String>,
    ) -> (r: Result<Runtime, ConfigError>)
        ensures
            (args.services is None && discovered_services is None) ==> (r matches Err(e)
                && e == ConfigError::NoServices),
            (!(args.services is None && discovered_services is None)
                && args.target_request_url is None && deployed_url is None) ==> (r matches Err(e)
                && e == ConfigError::NoTargetUrl),
            r is Ok <==> !(args.services is None && discovered_services is None)
                && !(args.target_request_url is None && deployed_url is None),
            r matches Ok(rt) ==> {
                &&& rt.wf()
                &&& rt.results@.len() == 0
                &&& rt.comparison_len() == 0
                &&& (rt.comparison_results is Some <==> args.comparison_url is Some)
                &&& names_model(rt.jobs.services@) == (match args.services {
                    Some(s) => names_model(s@),
                    None => names_model(discovered_services->Some_0@),
                })
                &&& rt.jobs.target_url@ == (match args.target_request_url {
                    Some(t) => t@,
                    None => deployed_url->Some_0@,
                })
                &&& (args.comparison_url matches Some(c) ==> rt.jobs.comparison_url matches Some(
                    u,
                ) && u@ == c@)
                &&& rt.average == args.average
                &&& rt.times == args.times
                &&& rt.delay == args.delay
                &&& rt.output_dir == args.output_dir
                &&& rt.mode == (if args.flood {
                    DispatchMode::Concurrent
                } else {
                    DispatchMode::Sequential
                })
                &&& rt.concurrency_cap == args.concurrency_cap
            },
    {
        let jobs = match args.jobs(discovered_services, deployed_url) {
            Ok(j) => j,
            Err(e) => {
                return Err(e);
            },
        };
        let comparison_results: Option<Vec<(String, Vec<MeasureResponse>)>> =
            match &args.comparison_url {
            Some(_) => Some(Vec::new()),
            None => None,
        };
        Ok(
            Runtime {
                jobs,
                results: Vec::new(),
                comparison_results,
                output_dir: args.output_dir,
                average: args.average,
                times: args.times,
                delay: args.delay,
                mode: if args.flood {
                    DispatchMode::Concurrent
                } else {
                    DispatchMode::Sequential
                },
                concurrency_cap: args.concurrency_cap,
            },
        )
    }

    /// The next (agent, URL) pair to drive, or nothing once the run is
    /// complete. The current agent's comparison series is collected right
    /// after its target series; agents are taken strictly in list order.
    pub fn next_job(&self) -> (r: Option<ProbeJob>)
        requires
            self.wf(),
        ensures
            r is Some <==> !self.complete(),
            r matches Some(j) ==> {
                &&& j.comparison == self.pending_comparison()
                &&& self.pending_comparison() ==> j.agent@
                    == self.jobs.services@[self.comparison_len()]@ && j.url@
                    == self.jobs.comparison_url->Some_0@
                &&& !self.pending_comparison() ==> j.agent@
                    == self.jobs.services@[self.results@.len() as int]@ && j.url@
                    == self.jobs.target_url@
            },
    {
        if let Some(cr) = &self.comparison_results {
            if cr.len() < self.results.len() {
                let idx = cr.len();
                let url = match &self.jobs.comparison_url {
                    Some(u) => copy_string(u),
                    None => {
                        proof {
                            assert(false);
                        }
                        copy_string(&self.jobs.target_url)
                    },
                };
                return Some(
                    ProbeJob { agent: copy_string(&self.jobs.services[idx]), url, comparison: true },
                );
            }
        }
        if self.results.len() < self.jobs.services.len() {
            let idx = self.results.len();
            Some(
                ProbeJob {
                    agent: copy_string(&self.jobs.services[idx]),
                    url: copy_string(&self.jobs.target_url),
                    comparison: false,
                },
            )
        } else {
            None
        }
    }

    /// Files a finished series under the agent it was collected from: the
    /// next agent in list order for a target series, the trailing agent for
    /// a comparison series. Everything already recorded is untouched.
    pub fn record_series(&mut self, samples: Vec<MeasureResponse>, comparison: bool)
        requires
            old(self).wf(),
            !old(self).complete(),
            comparison == old(self).pending_comparison(),
        ensures
            final(self).wf(),
            final(self).jobs == old(self).jobs,
            final(self).output_dir == old(self).output_dir,
            final(self).average == old(self).average,
            final(self).times == old(self).times,
            final(self).delay == old(self).delay,
            final(self).mode == old(self).mode,
            final(self).concurrency_cap == old(self).concurrency_cap,
            !comparison ==> {
                &&& final(self).comparison_results == old(self).comparison_results
                &&& entries_model(final(self).results@) =~= entries_model(
                    old(self).results@,
                ).push(
                    (
                        old(self).jobs.services@[old(self).results@.len() as int]@,
                        series_model(samples@),
                    ),
                )
            },
            comparison ==> {
                &&& final(self).results == old(self).results
                &&& old(self).comparison_results matches Some(ocr)
                &&& final(self).comparison_results matches Some(ncr) && entries_model(ncr@)
                    =~= entries_model(ocr@).push(
                    (old(self).jobs.services@[old(self).comparison_len()]@, series_model(samples@)),
                )
            },
    {
        if comparison {
            let idx = match &self.comparison_results {
                Some(cr) => cr.len(),
                None => {
                    proof {
                        assert(false);
                    }
                    0
                },
            };
            let key = copy_string(&self.jobs.services[idx]);
            match &mut self.comparison_results {
                Some(cr) => {
                    cr.push((key, samples));
                },
                None => {
                    proof {
                        assert(false);
                    }
                },
            }
        } else {
            let idx = self.results.len();
            let key = copy_string(&self.jobs.services[idx]);
            self.results.push((key, samples));
        }
    }

    /// Whether every configured agent has all its series recorded.
    pub fn is_complete(&self) -> (r: bool)
        ensures
            r == self.complete(),
    {
        let base = self.results.len() == self.jobs.services.len();
        match &self.comparison_results {
            Some(cr) => base && cr.len() == self.jobs.services.len(),
            None => base,
        }
    }

    /// The output document of a completed run: the recorded mappings, as
    /// they stand, restructured and copied — no aggregation, no mutation of
    /// timing data. Only a completed run has an output document; a run
    /// aborted midway never yields one.
    pub fn output(&self) -> (r: Output)
        requires
            self.wf(),
            self.complete(),
        ensures
            r@.target =~= entries_model(self.results@),
            self.comparison_results matches Some(cr) ==> r@.comparison matches Some(c) && c
                =~= entries_model(cr@),
            self.comparison_results is None ==> r@.comparison is None,
    {
        let target_results = copy_entries(&self.results);
        let comparison_results = match &self.comparison_results {
            Some(cr) => Some(copy_entries(cr)),
            None => None,
        };
        Output { target_results, comparison_results }
    }
}

/// An exact copy of a list of run-result entries.
pub fn copy_entries(v: &Vec<(String, Vec<MeasureResponse>)>) -> (r: Vec<
    (String, Vec<MeasureResponse>),
>)
    ensures
        entries_model(r@) =~= entries_model(v@),
        r@.len() == v@.len(),
{
    let mut out: Vec<(String, Vec<MeasureResponse>)> = Vec::new();
    let mut i: usize = 0;
    while i < v.len()
        invariant
            i <= v@.len(),
            out@.len() == i,
            forall|k: int|
                0 <= k < i ==> (#[trigger] out@[k]).0@ == v@[k].0@ && series_model(out@[k].1@)
                    == series_model(v@[k].1@),
        decreases v@.len() - i,
    {
        let key = copy_string(&v[i].0);
        let samples = copy_series(&v[i].1);
        out.push((key, samples));
        i = i + 1;
    }
    proof {
        assert forall|k: int| 0 <= k < v@.len() implies entries_model(out@)[k] == entries_model(
            v@,
        )[k] by {
            assert((#[trigger] out@[k]).0@ == v@[k].0@);
        }
    }
    out
}

/// A completed run covers the configured agents exactly: the target
/// mapping holds one entry per configured agent, keyed by the agent's own
/// endpoint, in list order.
pub proof fn lemma_complete_run_covers_all_agents(rt: Runtime)
    requires
        rt.wf(),
        rt.complete(),
    ensures
        keys_model(rt.results@) =~= names_model(rt.jobs.services@),
{
    assert forall|k: int| 0 <= k < rt.results@.len() implies keys_model(rt.results@)[k]
        == names_model(rt.jobs.services@)[k] by {
        assert((#[trigger] rt.results@[k]).0@ == rt.jobs.services@[k]@);
    }
}

/// Comparison key parity: after a completed run with a comparison URL
/// configured, the target and comparison mappings hold entries for exactly
/// the same agents, in the same order — identical key sequences, hence
/// identical key sets.
pub proof fn lemma_comparison_key_parity(rt: Runtime)
    requires
        rt.wf(),
        rt.complete(),
        rt.comparison_results is Some,
    ensures
        keys_model(rt.comparison_results->Some_0@) =~= keys_model(rt.results@),
        keys_model(rt.comparison_results->Some_0@).to_set() =~= keys_model(rt.results@).to_set(),
{
    let cr = rt.comparison_results->Some_0;
    assert forall|k: int| 0 <= k < cr@.len() implies keys_model(cr@)[k] == keys_model(
        rt.results@,
    )[k] by {
        assert((#[trigger] cr@[k]).0@ == rt.jobs.services@[k]@);
        assert(rt.results@[k].0@ == rt.jobs.services@[k]@);
    }
    assert(keys_model(cr@) =~= keys_model(rt.results@));
}

} // verus!
