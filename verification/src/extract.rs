//! What one source file yields under a profile: the output files, in the
//! order of the profile's channels, and the failure that ends them early.

use vstd::prelude::*;
use vstd::string::StringExecFns;
use crate::config::ChannelConfig;
use crate::config::Profile;
use crate::error::SplitError;

verus! {

/// One output file: its name, and the channel of the source that fills it.
#[derive(Debug, Clone, PartialEq, Eq)]
pub struct OutputJob {
    pub file_name: String,
    pub channel: usize,
}

/// The outputs of one source file, in the order in which they are written,
/// and the failure that follows the last of them, if any.
#[derive(Debug, Clone, PartialEq, Eq)]
pub struct OutputPlan {
    pub jobs: Vec<OutputJob>,
    pub failure: Option<SplitError>,
}

impl View for OutputJob {
    type V = (Seq<char>, usize);

    open spec fn view(&self) -> (Seq<char>, usize) {
        (self.file_name@, self.channel)
    }
}

/// The name of an output file: stem, underscore, channel name, dot, format.
pub open spec fn output_file_name(stem: Seq<char>, channel_name: Seq<char>, format: Seq<char>) -> Seq<
    char,
> {
    stem + seq!['_'] + channel_name + seq!['.'] + format
}

/// The first position at or after `from` whose channel is none of red, green
/// and blue; the length where there is none.
pub open spec fn leading_valid_from(channels: Seq<ChannelConfig>, from: int) -> int
    decreases channels.len() - from,
{
    if from < 0 || from >= channels.len() || channels[from].channel > 2 {
        from
    } else {
        leading_valid_from(channels, from + 1)
    }
}

/// How many channels stand before the first invalid one.
pub open spec fn leading_valid(channels: Seq<ChannelConfig>) -> int {
    leading_valid_from(channels, 0)
}

/// The output of one channel.
pub open spec fn job_of(stem: Seq<char>, format: Seq<char>, channel: ChannelConfig) -> (Seq<char>, usize) {
    (output_file_name(stem, channel.name@, format), channel.channel)
}

/// The outputs that are written: one for each channel before the first
/// invalid one, in the profile's order.
pub open spec fn planned_jobs(stem: Seq<char>, format: Seq<char>, channels: Seq<ChannelConfig>) -> Seq<
    (Seq<char>, usize),
> {
    Seq::new(leading_valid(channels) as nat, |i: int| job_of(stem, format, channels[i]))
}

/// The failure that ends the outputs: the first invalid channel, if there is one.
pub open spec fn planned_failure(channels: Seq<ChannelConfig>) -> Option<SplitError> {
    if leading_valid(channels) < channels.len() {
        Some(SplitError::InvalidChannelIndex { index: channels[leading_valid(channels)].channel })
    } else {
        None
    }
}

/// What `plan_outputs` gives for a stem and a profile.
pub open spec fn is_plan(stem: Option<&str>, profile: Profile, plan: OutputPlan) -> bool {
    match stem {
        None => plan.jobs@.len() == 0 && plan.failure == Some(SplitError::InvalidFileName),
        Some(stem) => {
            &&& plan.jobs@.len() == leading_valid(profile.channels@)
            &&& forall|i: int|
                0 <= i < plan.jobs@.len() ==> (#[trigger] plan.jobs@[i])@ == planned_jobs(
                    stem@,
                    profile.output_format@,
                    profile.channels@,
                )[i]
            &&& plan.failure == planned_failure(profile.channels@)
        },
    }
}

/// From `from` on, the channels are valid up to where the count stops, and
/// the channel there, if there is one, is invalid.
pub proof fn lemma_leading_valid_from(channels: Seq<ChannelConfig>, from: int)
    requires
        0 <= from <= channels.len(),
    ensures
        from <= leading_valid_from(channels, from) <= channels.len(),
        forall|i: int|
            from <= i < leading_valid_from(channels, from) ==> (#[trigger] channels[i]).channel <= 2,
        leading_valid_from(channels, from) < channels.len() ==> channels[leading_valid_from(
            channels,
            from,
        )].channel > 2,
    decreases channels.len() - from,
{
    if from < channels.len() && channels[from].channel <= 2 {
        lemma_leading_valid_from(channels, from + 1);
    }
}

/// Every channel before the first invalid one is valid, and the first
/// invalid one is where the valid ones end.
pub proof fn lemma_leading_valid(channels: Seq<ChannelConfig>)
    ensures
        0 <= leading_valid(channels) <= channels.len(),
        forall|i: int| 0 <= i < leading_valid(channels) ==> (#[trigger] channels[i]).channel <= 2,
        leading_valid(channels) < channels.len() ==> channels[leading_valid(channels)].channel > 2,
{
    lemma_leading_valid_from(channels, 0);
}

/// While every channel before `upto` is valid, counting from there is
/// counting from the start.
proof fn lemma_leading_valid_skip(channels: Seq<ChannelConfig>, upto: int)
    requires
        0 <= upto <= channels.len(),
        forall|i: int| 0 <= i < upto ==> (#[trigger] channels[i]).channel <= 2,
    ensures
        leading_valid(channels) == leading_valid_from(channels, upto),
    decreases upto,
{
    if upto > 0 {
        lemma_leading_valid_skip(channels, upto - 1);
    }
}

/// The name of the output file of one channel.
pub fn output_name(stem: &str, channel_name: &str, format: &str) -> (name: String)
    ensures
        name@ == output_file_name(stem@, channel_name@, format@),
{
    let mut name: String = stem.to_owned();
    name.append("_");
    name.append(channel_name);
    name.append(".");
    name.append(format);
    proof {
        reveal_strlit("_");
        reveal_strlit(".");
        assert("_"@ =~= seq!['_']);
        assert("."@ =~= seq!['.']);
        assert(name@ =~= output_file_name(stem@, channel_name@, format@));
    }
    name
}

/// Plans the outputs of a source file whose stem is `stem` (`None` where the
/// file's name has none). The channels are taken in the profile's order. Each
/// valid one gives a job. The first invalid one ends the plan: the jobs
/// before it stand, and the plan's failure names its index.
pub fn plan_outputs(stem: Option<&str>, profile: &Profile) -> (plan: OutputPlan)
    ensures
        is_plan(stem, *profile, plan),
{
    let text: &str = match stem {
        Some(text) => text,
        None => {
            return OutputPlan { jobs: Vec::new(), failure: Some(SplitError::InvalidFileName) };
        },
    };
    let mut jobs: Vec<OutputJob> = Vec::new();
    let mut i: usize = 0;
    while i < profile.channels.len()
        invariant
            i <= profile.channels@.len(),
            jobs@.len() == i,
            stem == Some(text),
            forall|k: int| 0 <= k < i ==> (#[trigger] profile.channels@[k]).channel <= 2,
            forall|k: int|
                0 <= k < i ==> (#[trigger] jobs@[k])@ == job_of(
                    text@,
                    profile.output_format@,
                    profile.channels@[k],
                ),
        decreases profile.channels@.len() - i,
    {
        let channel = &profile.channels[i];
        if channel.channel > 2 {
            proof {
                lemma_leading_valid_skip(profile.channels@, i as int);
            }
            return OutputPlan {
                jobs,
                failure: Some(SplitError::InvalidChannelIndex { index: channel.channel }),
            };
        }
        let file_name = output_name(
            text,
            channel.name.as_str(),
            profile.output_format.as_str(),
        );
        jobs.push(OutputJob { file_name, channel: channel.channel });
        i += 1;
    }
    proof {
        lemma_leading_valid_skip(profile.channels@, i as int);
    }
    OutputPlan { jobs, failure: None }
}

/// The output of a channel depends on the channel alone: neither on where
/// it stands in its profile nor on the channels around it.
pub proof fn lemma_job_independent_of_position(
    stem: Seq<char>,
    format: Seq<char>,
    first: Seq<ChannelConfig>,
    second: Seq<ChannelConfig>,
    i: int,
    j: int,
)
    requires
        0 <= i < leading_valid(first),
        0 <= j < leading_valid(second),
        first[i].name@ == second[j].name@,
        first[i].channel == second[j].channel,
    ensures
        planned_jobs(stem, format, first)[i] == planned_jobs(stem, format, second)[j],
{
}

/// A profile whose channels are all valid gives one output per channel and
/// no failure.
pub proof fn lemma_all_valid(channels: Seq<ChannelConfig>)
    requires
        forall|i: int| 0 <= i < channels.len() ==> (#[trigger] channels[i]).channel <= 2,
    ensures
        leading_valid(channels) == channels.len(),
        planned_failure(channels) is None,
{
    lemma_leading_valid_skip(channels, channels.len() as int);
}

/// An invalid channel ends the outputs where it stands: those of the
/// channels before it are planned, and the failure names its index.
pub proof fn lemma_first_invalid(channels: Seq<ChannelConfig>, k: int)
    requires
        0 <= k < channels.len(),
        channels[k].channel > 2,
        forall|i: int| 0 <= i < k ==> (#[trigger] channels[i]).channel <= 2,
    ensures
        leading_valid(channels) == k,
        planned_failure(channels) == Some(
            SplitError::InvalidChannelIndex { index: channels[k].channel },
        ),
{
    lemma_leading_valid_skip(channels, k);
}

} // verus!
