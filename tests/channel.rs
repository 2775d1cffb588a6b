use chart_automation::automation::{
    Anchor, AnchorTable, Automation, Bound, BoundTable, ConfigError, HitReaction, HitRegister,
};
use chart_automation::channel::{
    check_ids, eval_channels, resolve, run_tick, seek_channels, Channel, ChannelOutput, IndexCache,
};
use chart_automation::easing::Weight;
use chart_automation::utils::ONE;

fn ramp(start: i64, top: i64, reaction: HitReaction) -> Automation {
    Automation {
        start,
        reaction,
        layer: None,
        repeater: None,
        upper_bounds: BoundTable::from_slice(&[Bound { time: 0, value: top }]),
        anchors: AnchorTable::from_slice(&[
            Anchor { time: 0, value: 0, weight: Weight::Quadratic(0) },
            Anchor { time: 4 * ONE, value: ONE, weight: Weight::Quadratic(0) },
        ]),
        lower_bounds: BoundTable::from_slice(&[Bound { time: 0, value: 0 }]),
    }
}

fn table() -> Vec<Channel> {
    vec![
        Channel {
            id: 0,
            clips: vec![
                ramp(0, 4 * ONE, HitReaction::Ignore),
                ramp(10 * ONE, 8 * ONE, HitReaction::Ignore),
            ],
        },
        Channel { id: 1, clips: vec![] },
        Channel {
            id: 2,
            clips: vec![ramp(0, 2 * ONE, HitReaction::Redirect { lane: 0, channel: 0 })],
        },
    ]
}

fn slots(n: usize) -> Vec<ChannelOutput> {
    (0..n).map(|_| ChannelOutput::new()).collect()
}

#[test]
fn pipeline_writes_each_channel_slot() {
    let channels = table();
    let mut caches = vec![IndexCache(0), IndexCache(0), IndexCache(0)];
    let mut outputs = slots(3);
    let hits = HitRegister([None; 4]);

    seek_channels(&channels, &mut caches, 2 * ONE);
    assert_eq!(caches[0].0, 0);
    eval_channels(&channels, &caches, 2 * ONE, &hits, &mut outputs);
    // half way up a ramp to 4
    assert_eq!(outputs[0].output, Some(2 * ONE));
    assert_eq!(outputs[0].redirect, None);
    // half way up a ramp to 2
    assert_eq!(outputs[2].output, Some(ONE));

    seek_channels(&channels, &mut caches, 11 * ONE);
    assert_eq!(caches[0].0, 1);
    eval_channels(&channels, &caches, 11 * ONE, &hits, &mut outputs);
    // a quarter up the second clip's ramp to 8
    assert_eq!(outputs[0].output, Some(2 * ONE));
    // the third channel's only clip has ended
    assert_eq!(outputs[2].output, None);
}

#[test]
fn empty_channel_slot_is_never_written() {
    let channels = table();
    let mut caches = vec![IndexCache(0), IndexCache(5), IndexCache(0)];
    let mut outputs = slots(3);
    outputs[1] = ChannelOutput { output: Some(77), redirect: Some(2) };
    let hits = HitRegister([Some(0), None, None, None]);
    for t in [0, ONE, 3 * ONE, 12 * ONE] {
        seek_channels(&channels, &mut caches, t);
        assert_eq!(caches[1].0, 5);
        eval_channels(&channels, &caches, t, &hits, &mut outputs);
        assert_eq!(outputs[1].output, Some(77));
        assert_eq!(outputs[1].redirect, Some(2));
    }
    let channels = vec![Channel { id: 0, clips: vec![] }];
    let mut caches = vec![IndexCache(0)];
    let mut outputs = slots(1);
    seek_channels(&channels, &mut caches, ONE);
    eval_channels(&channels, &caches, ONE, &hits, &mut outputs);
    assert_eq!(outputs[0].output, None);
    assert_eq!(outputs[0].redirect, None);
}

#[test]
fn redirect_resolves_one_hop() {
    let channels = table();
    let mut caches = vec![IndexCache(0), IndexCache(0), IndexCache(0)];
    let mut outputs = slots(3);
    let hits = HitRegister([Some(ONE), None, None, None]);
    seek_channels(&channels, &mut caches, 2 * ONE);
    eval_channels(&channels, &caches, 2 * ONE, &hits, &mut outputs);
    assert_eq!(outputs[2].redirect, Some(0));
    assert_eq!(outputs[2].output, Some(ONE));
    assert_eq!(resolve(&outputs, 2), Some(2 * ONE));
    assert_eq!(resolve(&outputs, 0), Some(2 * ONE));
    // a redirect to a slot that itself redirects is not followed further
    outputs[0].redirect = Some(1);
    assert_eq!(resolve(&outputs, 2), Some(2 * ONE));
    // a redirect past the table keeps the slot's own value
    outputs[2].redirect = Some(40);
    assert_eq!(resolve(&outputs, 2), Some(ONE));
}

#[test]
fn seeking_skips_only_when_the_answer_is_known() {
    let channels = table();
    let ch = &channels[0];
    assert!(ch.can_skip_seeking(&IndexCache(1), 10 * ONE));
    assert!(!ch.can_skip_seeking(&IndexCache(1), 9 * ONE));
    assert!(!ch.can_skip_seeking(&IndexCache(0), 11 * ONE));
    assert!(channels[1].can_skip_seeking(&IndexCache(3), 0));
}

#[test]
fn seeking_backwards_reselects_the_clip() {
    let channels = table();
    let mut caches = vec![IndexCache(0), IndexCache(0), IndexCache(0)];
    seek_channels(&channels, &mut caches, 20 * ONE);
    assert_eq!(caches[0].0, 1);
    seek_channels(&channels, &mut caches, ONE);
    assert_eq!(caches[0].0, 0);
}

#[test]
fn channel_validation() {
    let channels = table();
    for ch in channels.iter() {
        assert_eq!(ch.validate(), Ok(()));
    }
    let out_of_order = Channel {
        id: 0,
        clips: vec![ramp(5 * ONE, ONE, HitReaction::Ignore), ramp(0, ONE, HitReaction::Ignore)],
    };
    assert_eq!(out_of_order.validate(), Err(ConfigError::Unsorted));
    let mut bad = ramp(0, ONE, HitReaction::Ignore);
    bad.lower_bounds = BoundTable::from_slice(&[]);
    let broken = Channel { id: 0, clips: vec![bad] };
    assert_eq!(broken.validate(), Err(ConfigError::EmptyTable));
}

#[test]
fn channel_ids_must_be_distinct_and_fit() {
    let channels = table();
    assert!(check_ids(&channels, 3));
    assert!(!check_ids(&channels, 2));
    let twins = vec![Channel { id: 1, clips: vec![] }, Channel { id: 1, clips: vec![] }];
    assert!(!check_ids(&twins, 4));
}

#[test]
fn run_tick_ignores_stale_caches() {
    let channels = table();
    let hits = HitRegister([None; 4]);
    // caches left over from a later time
    let mut caches = vec![IndexCache(1), IndexCache(0), IndexCache(0)];
    let mut outputs = slots(3);
    run_tick(&channels, &mut caches, 2 * ONE, &hits, &mut outputs);
    assert_eq!(caches[0].0, 0);
    assert_eq!(outputs[0].output, Some(2 * ONE));
    assert_eq!(outputs[1].output, None);
    assert_eq!(outputs[2].output, Some(ONE));
    run_tick(&channels, &mut caches, 12 * ONE, &hits, &mut outputs);
    assert_eq!(caches[0].0, 1);
    // half way up the second clip's ramp to 8
    assert_eq!(outputs[0].output, Some(4 * ONE));
}

#[test]
fn channel_validation_reports_the_first_bad_clip() {
    let mut empty = ramp(0, ONE, HitReaction::Ignore);
    empty.anchors = AnchorTable::from_slice(&[]);
    let mut unsorted = ramp(0, ONE, HitReaction::Ignore);
    unsorted.lower_bounds =
        BoundTable::from_slice(&[Bound { time: ONE, value: 0 }, Bound { time: 0, value: 0 }]);
    let ch = Channel { id: 0, clips: vec![ramp(0, ONE, HitReaction::Ignore), unsorted, empty] };
    assert_eq!(ch.validate(), Err(ConfigError::Unsorted));
    let mut empty = ramp(0, ONE, HitReaction::Ignore);
    empty.anchors = AnchorTable::from_slice(&[]);
    let mut unsorted = ramp(0, ONE, HitReaction::Ignore);
    unsorted.lower_bounds =
        BoundTable::from_slice(&[Bound { time: ONE, value: 0 }, Bound { time: 0, value: 0 }]);
    let ch = Channel { id: 0, clips: vec![empty, unsorted] };
    assert_eq!(ch.validate(), Err(ConfigError::EmptyTable));
}
