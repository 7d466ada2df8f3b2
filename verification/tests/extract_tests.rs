use image::DynamicImage;
use image::GenericImageView;
use image::Rgba;
use image::RgbaImage;
use orm_separate::config::ChannelConfig;
use orm_separate::config::Config;
use orm_separate::config::Profile;
use orm_separate::error::SplitError;
use orm_separate::extract::output_name;
use orm_separate::extract::plan_outputs;
use orm_separate::extract::OutputJob;
use orm_separate::listing::list_matching_files;
use orm_separate::listing::WalkEntry;
use orm_separate::pattern::compile;
use orm_separate::raster::extract_channel;

fn profile(format: &str, channels: &[(&str, usize)]) -> Profile {
    Profile {
        name: "p".to_string(),
        file_regex: "/orm/i".to_string(),
        output_format: format.to_string(),
        channels: channels
            .iter()
            .map(|(n, c)| ChannelConfig { name: n.to_string(), channel: *c })
            .collect(),
    }
}

fn job(file_name: &str, channel: usize) -> OutputJob {
    OutputJob { file_name: file_name.to_string(), channel }
}

#[test]
fn output_name_joins_stem_channel_and_format() {
    assert_eq!(output_name("a_orm", "Occlusion", "png"), "a_orm_Occlusion.png");
    assert_eq!(output_name("rock", "R", "tga"), "rock_R.tga");
}

#[test]
fn output_name_keeps_empty_parts() {
    assert_eq!(output_name("", "", ""), "_.");
    assert_eq!(output_name("a", "", "png"), "a_.png");
    assert_eq!(output_name("", "X", ""), "_X.");
}

#[test]
fn output_name_keeps_dots_and_characters_beyond_ascii() {
    assert_eq!(output_name("wall.v2", "Höhe", "png"), "wall.v2_Höhe.png");
}

#[test]
fn builtin_profile_plans_three_outputs() {
    let config = Config::default();
    let builtin = config.get_profile(None).unwrap();
    let plan = plan_outputs(Some("a_orm"), builtin);
    assert_eq!(
        plan.jobs,
        vec![
            job("a_orm_Occlusion.png", 0),
            job("a_orm_Roughness.png", 1),
            job("a_orm_Metallic.png", 2),
        ]
    );
    assert_eq!(plan.failure, None);
}

#[test]
fn invalid_channel_ends_the_plan_after_the_outputs_before_it() {
    let p = profile("png", &[("A", 0), ("B", 2), ("C", 5), ("D", 1)]);
    let plan = plan_outputs(Some("x"), &p);
    assert_eq!(plan.jobs, vec![job("x_A.png", 0), job("x_B.png", 2)]);
    assert_eq!(plan.failure, Some(SplitError::InvalidChannelIndex { index: 5 }));
}

#[test]
fn invalid_first_channel_plans_nothing() {
    let p = profile("png", &[("A", 3), ("B", 0)]);
    let plan = plan_outputs(Some("x"), &p);
    assert_eq!(plan.jobs, Vec::<OutputJob>::new());
    assert_eq!(plan.failure, Some(SplitError::InvalidChannelIndex { index: 3 }));
}

#[test]
fn only_the_first_invalid_channel_is_reported() {
    let p = profile("png", &[("A", 1), ("B", 7), ("C", 9)]);
    let plan = plan_outputs(Some("x"), &p);
    assert_eq!(plan.jobs, vec![job("x_A.png", 1)]);
    assert_eq!(plan.failure, Some(SplitError::InvalidChannelIndex { index: 7 }));
}

#[test]
fn invalid_last_channel_keeps_all_outputs_before_it() {
    let p = profile("png", &[("A", 0), ("B", 1), ("C", 3)]);
    let plan = plan_outputs(Some("x"), &p);
    assert_eq!(plan.jobs, vec![job("x_A.png", 0), job("x_B.png", 1)]);
    assert_eq!(plan.failure, Some(SplitError::InvalidChannelIndex { index: 3 }));
}

#[test]
fn profile_without_channels_plans_nothing_and_succeeds() {
    let p = profile("png", &[]);
    let plan = plan_outputs(Some("x"), &p);
    assert!(plan.jobs.is_empty());
    assert_eq!(plan.failure, None);
}

#[test]
fn missing_stem_is_an_invalid_file_name() {
    let p = profile("png", &[("A", 0)]);
    let plan = plan_outputs(None, &p);
    assert!(plan.jobs.is_empty());
    assert_eq!(plan.failure, Some(SplitError::InvalidFileName));
    let empty = plan_outputs(None, &profile("png", &[]));
    assert_eq!(empty.failure, Some(SplitError::InvalidFileName));
    let invalid = plan_outputs(None, &profile("png", &[("A", 9)]));
    assert_eq!(invalid.failure, Some(SplitError::InvalidFileName));
}

#[test]
fn channels_may_share_a_source_channel() {
    let p = profile("tga", &[("Rough", 1), ("Gloss", 1)]);
    let plan = plan_outputs(Some("m"), &p);
    assert_eq!(plan.jobs, vec![job("m_Rough.tga", 1), job("m_Gloss.tga", 1)]);
    assert_eq!(plan.failure, None);
}

#[test]
fn channels_of_one_name_plan_the_same_file_twice() {
    let p = profile("png", &[("Mask", 0), ("Mask", 2)]);
    let plan = plan_outputs(Some("m"), &p);
    assert_eq!(plan.jobs, vec![job("m_Mask.png", 0), job("m_Mask.png", 2)]);
}

#[test]
fn reordering_the_channels_reorders_the_jobs_and_changes_none() {
    let forward = profile("png", &[("O", 0), ("R", 1), ("M", 2)]);
    let backward = profile("png", &[("M", 2), ("R", 1), ("O", 0)]);
    let first = plan_outputs(Some("t"), &forward);
    let second = plan_outputs(Some("t"), &backward);
    assert_eq!(first.jobs[0], second.jobs[2]);
    assert_eq!(first.jobs[1], second.jobs[1]);
    assert_eq!(first.jobs[2], second.jobs[0]);

    let source = DynamicImage::ImageRgba8(RgbaImage::from_fn(3, 3, |x, y| {
        Rgba([(x + y) as u8, (x * y) as u8, (50 + x) as u8, 9])
    }));
    let images_first: Vec<DynamicImage> =
        first.jobs.iter().map(|j| extract_channel(&source, j.channel).unwrap()).collect();
    let images_second: Vec<DynamicImage> =
        second.jobs.iter().map(|j| extract_channel(&source, j.channel).unwrap()).collect();
    assert_eq!(images_first[0], images_second[2]);
    assert_eq!(images_first[1], images_second[1]);
    assert_eq!(images_first[2], images_second[0]);
}

#[test]
fn directory_with_one_matching_file_yields_its_three_outputs() {
    let config = Config::default();
    let orm = config.get_profile(Some("orm")).unwrap();
    let matcher = compile(&orm.file_regex).unwrap();
    let entries = vec![
        WalkEntry { path: "dir".to_string(), is_file: false },
        WalkEntry { path: "dir/a_orm.png".to_string(), is_file: true },
        WalkEntry { path: "dir/b_albedo.png".to_string(), is_file: true },
    ];
    let picked = list_matching_files(&entries, &matcher);
    assert_eq!(picked, vec![1]);

    let source = DynamicImage::ImageRgba8(RgbaImage::from_pixel(2, 2, Rgba([11, 22, 33, 44])));
    let plan = plan_outputs(Some("a_orm"), orm);
    assert_eq!(plan.failure, None);
    let written: Vec<(String, Rgba<u8>)> = plan
        .jobs
        .iter()
        .map(|j| (j.file_name.clone(), extract_channel(&source, j.channel).unwrap().get_pixel(1, 1)))
        .collect();
    assert_eq!(
        written,
        vec![
            ("a_orm_Occlusion.png".to_string(), Rgba([11, 11, 11, 255])),
            ("a_orm_Roughness.png".to_string(), Rgba([22, 22, 22, 255])),
            ("a_orm_Metallic.png".to_string(), Rgba([33, 33, 33, 255])),
        ]
    );
}
