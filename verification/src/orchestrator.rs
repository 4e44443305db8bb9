//! The order of a build: which stage follows which, what each build writes
//! besides its pages, and what a watcher looks at.

use vstd::prelude::*;
use crate::config::Config;
use crate::content::LoadedContent;
use crate::paths::{is_segment, join, path_text, path_view, push_segment, SitePath};
use crate::text::{chars_of, push_str, str_eq, string_of};

verus! {

/// The name of the configuration file used when none is given.
pub fn default_config_file() -> (name: String)
    ensures
        name@ == "site.toml"@,
{
    "site.toml".to_string()
}

/// The stages of a build, in the order in which they run.
#[derive(Clone, Copy, Debug, PartialEq, Eq, Structural)]
pub enum BuildStage {
    /// Mirror the static directory and put the root files in place.
    SyncStatic,
    /// Hash style sheets and scripts and make the manifest.
    HashAssets,
    /// Write the manifest to the file that the configuration names.
    ExportManifest,
    /// Find the content files.
    DiscoverContent,
    /// Load and transform every content file.
    TransformContent,
    /// Write one page for each content file.
    WritePages,
    /// Write the index of each declared content type.
    WriteTypeIndexes,
    /// Write the index of the whole site.
    WriteSiteIndex,
    /// Write the sitemap.
    WriteSitemap,
    /// Write the feed.
    WriteFeed,
    /// Write the redirect pages.
    WriteRedirects,
    /// The build has ended well.
    Done,
    /// A stage has failed, and the build with it.
    Failed,
}

/// The place of a stage in the order of a build.
pub open spec fn rank(stage: BuildStage) -> int {
    match stage {
        BuildStage::SyncStatic => 0,
        BuildStage::HashAssets => 1,
        BuildStage::ExportManifest => 2,
        BuildStage::DiscoverContent => 3,
        BuildStage::TransformContent => 4,
        BuildStage::WritePages => 5,
        BuildStage::WriteTypeIndexes => 6,
        BuildStage::WriteSiteIndex => 7,
        BuildStage::WriteSitemap => 8,
        BuildStage::WriteFeed => 9,
        BuildStage::WriteRedirects => 10,
        BuildStage::Done => 11,
        BuildStage::Failed => 12,
    }
}

/// The stage at the place `r`; `Done` past the last working stage.
pub open spec fn stage_at(r: int) -> BuildStage {
    if r == 0 {
        BuildStage::SyncStatic
    } else if r == 1 {
        BuildStage::HashAssets
    } else if r == 2 {
        BuildStage::ExportManifest
    } else if r == 3 {
        BuildStage::DiscoverContent
    } else if r == 4 {
        BuildStage::TransformContent
    } else if r == 5 {
        BuildStage::WritePages
    } else if r == 6 {
        BuildStage::WriteTypeIndexes
    } else if r == 7 {
        BuildStage::WriteSiteIndex
    } else if r == 8 {
        BuildStage::WriteSitemap
    } else if r == 9 {
        BuildStage::WriteFeed
    } else if r == 10 {
        BuildStage::WriteRedirects
    } else {
        BuildStage::Done
    }
}

/// The configuration asks for `stage`. The stages that every build runs are
/// always asked for; hashing, the export of the manifest, the sitemap, the
/// feed and the redirects depend on the configuration.
pub open spec fn is_enabled(config: Config, stage: BuildStage) -> bool {
    match stage {
        BuildStage::HashAssets => config.site.asset_hashing_enabled,
        BuildStage::ExportManifest => config.site.asset_hashing_enabled
            && config.site.asset_manifest_path is Some,
        BuildStage::WriteSitemap => config.site.sitemap_enabled,
        BuildStage::WriteFeed => config.site.rss_enabled,
        BuildStage::WriteRedirects => config.redirects.len() > 0,
        BuildStage::Failed => false,
        _ => true,
    }
}

/// The first stage at or after the place `r` that the configuration asks for.
pub open spec fn next_enabled(config: Config, r: int) -> BuildStage
    decreases 11 - r,
{
    if r < 0 || r >= 11 {
        BuildStage::Done
    } else if is_enabled(config, stage_at(r)) {
        stage_at(r)
    } else {
        next_enabled(config, r + 1)
    }
}

/// The stage that follows `stage`: `Failed` after a failure, and for ever
/// after; else the next stage that the configuration asks for, and `Done`
/// after the last.
pub open spec fn following(config: Config, stage: BuildStage, succeeded: bool) -> BuildStage {
    if stage == BuildStage::Failed || !succeeded {
        BuildStage::Failed
    } else {
        next_enabled(config, rank(stage) + 1)
    }
}

/// Whether the configuration asks for `stage`.
pub fn stage_enabled(config: &Config, stage: BuildStage) -> (r: bool)
    ensures
        r == is_enabled(*config, stage),
{
    match stage {
        BuildStage::HashAssets => config.site.asset_hashing_enabled,
        BuildStage::ExportManifest => config.site.asset_hashing_enabled
            && config.site.asset_manifest_path.is_some(),
        BuildStage::WriteSitemap => config.site.sitemap_enabled,
        BuildStage::WriteFeed => config.site.rss_enabled,
        BuildStage::WriteRedirects => config.redirects.len() > 0,
        BuildStage::Failed => false,
        _ => true,
    }
}

fn stage_number(stage: BuildStage) -> (r: u8)
    ensures
        r == rank(stage),
{
    match stage {
        BuildStage::SyncStatic => 0,
        BuildStage::HashAssets => 1,
        BuildStage::ExportManifest => 2,
        BuildStage::DiscoverContent => 3,
        BuildStage::TransformContent => 4,
        BuildStage::WritePages => 5,
        BuildStage::WriteTypeIndexes => 6,
        BuildStage::WriteSiteIndex => 7,
        BuildStage::WriteSitemap => 8,
        BuildStage::WriteFeed => 9,
        BuildStage::WriteRedirects => 10,
        BuildStage::Done => 11,
        BuildStage::Failed => 12,
    }
}

fn stage_numbered(r: u8) -> (stage: BuildStage)
    ensures
        stage == stage_at(r as int),
{
    if r == 0 {
        BuildStage::SyncStatic
    } else if r == 1 {
        BuildStage::HashAssets
    } else if r == 2 {
        BuildStage::ExportManifest
    } else if r == 3 {
        BuildStage::DiscoverContent
    } else if r == 4 {
        BuildStage::TransformContent
    } else if r == 5 {
        BuildStage::WritePages
    } else if r == 6 {
        BuildStage::WriteTypeIndexes
    } else if r == 7 {
        BuildStage::WriteSiteIndex
    } else if r == 8 {
        BuildStage::WriteSitemap
    } else if r == 9 {
        BuildStage::WriteFeed
    } else if r == 10 {
        BuildStage::WriteRedirects
    } else {
        BuildStage::Done
    }
}

/// The first stage of every build.
pub fn first_stage() -> (stage: BuildStage)
    ensures
        stage == BuildStage::SyncStatic,
{
    BuildStage::SyncStatic
}

/// The stage to go to from `stage`, given whether `stage` succeeded. The
/// first failure ends the build: no later stage runs.
pub fn next_stage(config: &Config, stage: BuildStage, succeeded: bool) -> (next: BuildStage)
    ensures
        next == following(*config, stage, succeeded),
{
    if !succeeded {
        return BuildStage::Failed;
    }
    match stage {
        BuildStage::Failed => {
            return BuildStage::Failed;
        },
        _ => {},
    }
    let mut r: u8 = stage_number(stage) + 1;
    while r < 11
        invariant
            1 <= r <= 12,
            succeeded,
            stage != BuildStage::Failed,
            next_enabled(*config, rank(stage) + 1) == next_enabled(*config, r as int),
        decreases 11 - r,
    {
        let candidate = stage_numbered(r);
        if stage_enabled(config, candidate) {
            assert(next_enabled(*config, r as int) == candidate);
            return candidate;
        }
        assert(next_enabled(*config, r as int) == next_enabled(*config, r + 1));
        r += 1;
    }
    BuildStage::Done
}

/// What `next_enabled` gives stands at or after the place asked for, is asked
/// for by the configuration unless it is `Done`, and skips no stage that is.
pub proof fn lemma_next_enabled(config: Config, r: int)
    requires
        0 <= r <= 11,
    ensures
        r <= rank(next_enabled(config, r)) <= 11,
        next_enabled(config, r) != BuildStage::Done ==> is_enabled(config, next_enabled(config, r)),
        forall|s: int| r <= s < rank(next_enabled(config, r)) ==> !is_enabled(config, stage_at(s)),
    decreases 11 - r,
{
    if r < 11 && !is_enabled(config, stage_at(r)) {
        lemma_next_enabled(config, r + 1);
    }
}

/// A build moves forward only, and in the fixed order: after a success the
/// next stage stands later than the one left, no stage that the
/// configuration asks for is passed over, and the stages that every build
/// runs are reached in their order, so that all content is transformed
/// before anything is written of it.
pub proof fn lemma_stage_order(config: Config, stage: BuildStage)
    requires
        stage != BuildStage::Failed,
        stage != BuildStage::Done,
    ensures
        rank(following(config, stage, true)) > rank(stage),
        rank(following(config, stage, true)) <= 11,
        forall|s: int|
            rank(stage) < s < rank(following(config, stage, true)) ==> !is_enabled(
                config,
                stage_at(s),
            ),
        following(config, stage, false) == BuildStage::Failed,
        following(config, BuildStage::DiscoverContent, true) == BuildStage::TransformContent,
        following(config, BuildStage::TransformContent, true) == BuildStage::WritePages,
        following(config, BuildStage::WritePages, true) == BuildStage::WriteTypeIndexes,
        following(config, BuildStage::WriteTypeIndexes, true) == BuildStage::WriteSiteIndex,
{
    lemma_next_enabled(config, rank(stage) + 1);
    lemma_next_enabled(config, 4);
    lemma_next_enabled(config, 5);
    lemma_next_enabled(config, 6);
    lemma_next_enabled(config, 7);
}

/// The stages that a build goes through from `stage` on while every stage
/// succeeds, `Done` left out.
pub open spec fn stages_from(config: Config, stage: BuildStage) -> Seq<BuildStage>
    decreases 12 - rank(stage),
    via stages_from_decreases
{
    if stage == BuildStage::Done || stage == BuildStage::Failed {
        Seq::empty()
    } else {
        seq![stage] + stages_from(config, following(config, stage, true))
    }
}

#[via_fn]
proof fn stages_from_decreases(config: Config, stage: BuildStage) {
    if stage != BuildStage::Done && stage != BuildStage::Failed {
        lemma_next_enabled(config, rank(stage) + 1);
    }
}

/// A build that fails writes nothing more: whatever stage fails, no stage
/// runs after it. Where the transformation of the content fails, no page,
/// index, sitemap or feed is written.
pub proof fn lemma_failure_runs_no_stage(config: Config, stage: BuildStage, succeeded: bool)
    ensures
        following(config, stage, false) == BuildStage::Failed,
        following(config, BuildStage::Failed, succeeded) == BuildStage::Failed,
        stages_from(config, following(config, stage, false)) == Seq::<BuildStage>::empty(),
{
}

/// What a build does: its stages in order, and whether it reads the
/// templates afresh.
#[derive(Debug)]
pub struct BuildPlan {
    /// Whether the templates are read anew rather than taken from an earlier
    /// build of the same process.
    pub fresh_templates: bool,
    pub stages: Vec<BuildStage>,
}

fn plan_stages(config: &Config) -> (stages: Vec<BuildStage>)
    ensures
        stages@ == stages_from(*config, BuildStage::SyncStatic),
{
    let mut stages: Vec<BuildStage> = Vec::new();
    let mut stage = first_stage();
    assert(forall|t: Seq<BuildStage>| Seq::<BuildStage>::empty() + t =~= t);
    loop
        invariant
            stage != BuildStage::Failed,
            stages@ + stages_from(*config, stage) == stages_from(*config, BuildStage::SyncStatic),
        decreases 12 - rank(stage),
    {
        match stage {
            BuildStage::Done => {
                assert(stages@ + Seq::<BuildStage>::empty() =~= stages@);
                return stages;
            },
            _ => {},
        }
        proof {
            lemma_next_enabled(*config, rank(stage) + 1);
        }
        let ghost before = stages@;
        stages.push(stage);
        let next = next_stage(config, stage, true);
        assert(stages@ + stages_from(*config, next) =~= before + (seq![stage] + stages_from(
            *config,
            next,
        )));
        stage = next;
    }
}

/// The plan of a build that may use the templates of an earlier build of the
/// same process.
pub fn build(config: &Config) -> (plan: BuildPlan)
    ensures
        !plan.fresh_templates,
        plan.stages@ == stages_from(*config, BuildStage::SyncStatic),
{
    BuildPlan { fresh_templates: false, stages: plan_stages(config) }
}

/// The plan of a build that reads the templates anew, as every build of a
/// watcher does.
pub fn build_fresh(config: &Config) -> (plan: BuildPlan)
    ensures
        plan.fresh_templates,
        plan.stages@ == stages_from(*config, BuildStage::SyncStatic),
{
    BuildPlan { fresh_templates: true, stages: plan_stages(config) }
}

/// The files and directories whose change asks for a new build: the
/// configuration file, and the directories of content, templates and static
/// files.
pub fn get_paths_to_watch(config_file: &str, config: &Config) -> (paths: Vec<String>)
    ensures
        paths@.len() == 4,
        paths@[0]@ == config_file@,
        paths@[1]@ == config.site.content_dir@,
        paths@[2]@ == config.site.template_dir@,
        paths@[3]@ == config.site.static_dir@,
{
    let mut paths: Vec<String> = Vec::new();
    paths.push(string_of(chars_of(config_file).as_slice()));
    paths.push(config.site.content_dir.clone());
    paths.push(config.site.template_dir.clone());
    paths.push(config.site.static_dir.clone());
    paths
}

/// What a profiled build leaves behind.
#[derive(Debug)]
pub enum FlameOutput {
    /// A timeline for the developer tools of a browser.
    ChromeTimeline { json_path: String },
    /// Folded stacks, with a flame graph drawn of them where `svg_path` is
    /// given; the folded stacks are deleted in the end unless `keep_folded`.
    FoldedStacks { folded_path: String, svg_path: Option<String>, keep_folded: bool },
}

/// What a profiled build writes, given the base of the file names and the
/// formats asked for. With no format asked for it draws a flame graph. A
/// timeline, where asked for, is written alone.
pub fn flame(output_base: &str, fold: bool, svg: bool, time: bool) -> (r: FlameOutput)
    ensures
        match r {
            FlameOutput::ChromeTimeline { json_path } => time && json_path@ == output_base@
                + ".json"@,
            FlameOutput::FoldedStacks { folded_path, svg_path, keep_folded } => {
                &&& !time
                &&& folded_path@ == output_base@ + ".folded"@
                &&& keep_folded == fold
                &&& match svg_path {
                    Some(p) => (svg || !fold) && p@ == output_base@ + ".svg"@,
                    None => !svg && fold,
                }
            },
        },
{
    assert(forall|t: Seq<char>| Seq::<char>::empty() + t =~= t);
    if time {
        let mut path: Vec<char> = Vec::new();
        push_str(&mut path, output_base);
        push_str(&mut path, ".json");
        return FlameOutput::ChromeTimeline { json_path: string_of(path.as_slice()) };
    }
    let draw = svg || !fold;
    let mut folded: Vec<char> = Vec::new();
    push_str(&mut folded, output_base);
    push_str(&mut folded, ".folded");
    let svg_path = if draw {
        let mut path: Vec<char> = Vec::new();
        push_str(&mut path, output_base);
        push_str(&mut path, ".svg");
        Some(string_of(path.as_slice()))
    } else {
        None
    };
    FlameOutput::FoldedStacks { folded_path: string_of(folded.as_slice()), svg_path, keep_folded: fold }
}

/// The file `name` in the output directory.
pub open spec fn output_file(output_dir: Seq<char>, name: Seq<char>) -> Seq<char> {
    path_text(push_segment(path_view(output_dir), name))
}

/// The index page of the content type `content_type`.
pub open spec fn type_index_file(output_dir: Seq<char>, content_type: Seq<char>) -> Seq<char> {
    path_text(
        push_segment(join(path_view(output_dir), path_view(content_type)), "index.html"@),
    )
}

/// Where the index of the content type `content_type` is written.
pub fn type_index_path(output_dir: &str, content_type: &str) -> (r: String)
    ensures
        r@ == type_index_file(output_dir@, content_type@),
{
    let name = chars_of("index.html");
    assert(is_segment(name@)) by {
        reveal_strlit("index.html");
    }
    SitePath::from_text(output_dir).join(SitePath::from_text(content_type)).push(name).to_text()
}

/// Where the index of the whole site is written.
pub fn site_index_path(output_dir: &str) -> (r: String)
    ensures
        r@ == output_file(output_dir@, "index.html"@),
{
    let name = chars_of("index.html");
    assert(is_segment(name@)) by {
        reveal_strlit("index.html");
    }
    SitePath::from_text(output_dir).push(name).to_text()
}

/// Where the sitemap is written.
pub fn sitemap_path(output_dir: &str) -> (r: String)
    ensures
        r@ == output_file(output_dir@, "sitemap.xml"@),
{
    let name = chars_of("sitemap.xml");
    assert(is_segment(name@)) by {
        reveal_strlit("sitemap.xml");
    }
    SitePath::from_text(output_dir).push(name).to_text()
}

/// Where the feed is written.
pub fn feed_path(output_dir: &str) -> (r: String)
    ensures
        r@ == output_file(output_dir@, "feed.xml"@),
{
    let name = chars_of("feed.xml");
    assert(is_segment(name@)) by {
        reveal_strlit("feed.xml");
    }
    SitePath::from_text(output_dir).push(name).to_text()
}

/// Two pages, the first before the second, are written to the same path.
pub open spec fn collide(pages: Seq<LoadedContent>, i: int, j: int) -> bool {
    0 <= i < j < pages.len() && pages[i].output_path@ == pages[j].output_path@
}

/// The first two pages that are written to the same path, where there are
/// such: the earliest page whose path an earlier page has, with the first
/// page that has it. Where pages share a path the one written last stays;
/// this finds them so that a build can say so.
pub fn first_collision(pages: &Vec<LoadedContent>) -> (r: Option<(usize, usize)>)
    ensures
        match r {
            Some((i, j)) => collide(pages@, i as int, j as int) && forall|a: int, b: int|
                collide(pages@, a, b) ==> j < b || (j == b && i <= a),
            None => forall|a: int, b: int| !collide(pages@, a, b),
        },
{
    let mut j: usize = 0;
    while j < pages.len()
        invariant
            j <= pages.len(),
            forall|a: int, b: int| collide(pages@, a, b) ==> j <= b,
        decreases pages.len() - j,
    {
        let mut i: usize = 0;
        while i < j
            invariant
                i <= j < pages.len(),
                forall|a: int, b: int| collide(pages@, a, b) ==> j <= b,
                forall|a: int| 0 <= a < i ==> !collide(pages@, a, j as int),
            decreases j - i,
        {
            if str_eq(pages[i].output_path.as_str(), pages[j].output_path.as_str()) {
                return Some((i, j));
            }
            i += 1;
        }
        j += 1;
    }
    None
}

} // verus!
