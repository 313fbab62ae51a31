use femtovg::{ClipPlanes, ImageId, LayerEnded, RenderTarget, Restored, StateStack, MAX_STATE_DEPTH};
use rand::{RngExt, SeedableRng};
use slotmap::{DefaultKey, SlotMap};

/// A drawing state reduced to its translation.
type Translation = (f32, f32);

fn translate(stack: &mut StateStack<Translation>, dx: f32, dy: f32) {
    let (x, y) = stack.state();
    stack.set_state((x + dx, y + dy));
}

/// A restore whose outcome is not needed.
fn restore(stack: &mut StateStack<Translation>) {
    stack.restore();
}

#[test]
fn saves_past_the_depth_limit_stay_paired_and_bounded() {
    let mut stack = StateStack::new((0.0f32, 0.0f32));
    let total = MAX_STATE_DEPTH + 1000;
    for _ in 0..total {
        stack.save();
        translate(&mut stack, 1.0, 0.0);
    }
    assert_eq!(stack.depth(), MAX_STATE_DEPTH);
    assert_eq!(stack.entries_past_limit().len(), total - (MAX_STATE_DEPTH - 1));
    assert!(stack.saturated());
    assert_eq!(
        stack.saved_at_limit().unwrap().0 .0,
        (MAX_STATE_DEPTH - 1) as f32,
        "the state saved when saturation began"
    );

    for _ in 0..1001 {
        restore(&mut stack);
    }
    assert!(!stack.saturated());
    assert_eq!(stack.depth(), MAX_STATE_DEPTH);
    assert_eq!(
        stack.state().0,
        (MAX_STATE_DEPTH - 1) as f32,
        "translates past the limit were discarded"
    );
    for _ in 0..(MAX_STATE_DEPTH - 1) {
        restore(&mut stack);
    }
    assert_eq!(stack.depth(), 1);
    assert_eq!(stack.state(), (0.0, 0.0));
    restore(&mut stack);
    assert_eq!(stack.depth(), 1, "unmatched restore at the base is ignored");
}

#[test]
fn a_layer_past_the_depth_limit_is_suppressed_and_keeps_its_boundary() {
    let mut stack = StateStack::new((0.0f32, 0.0f32));
    assert!(!stack.begin_layer(), "below the limit the layer is a real level");
    while stack.depth() < MAX_STATE_DEPTH {
        stack.save();
    }
    assert!(stack.begin_layer(), "past the limit, hence suppressed");
    assert_eq!(stack.open_layers(), 1);
    assert_eq!(stack.entries_past_limit().iter().filter(|&&layer| layer).count(), 1);
    stack.save();
    assert!(stack.saturated(), "nothing draws past the limit");
    assert_eq!(stack.end_layer(), LayerEnded::PastLimit);
    assert!(
        !stack.saturated(),
        "end_layer closed the layer with the save left open inside it"
    );
    assert_eq!(stack.open_layers(), 1, "the real layer is still open");
    while stack.depth() > 2 {
        restore(&mut stack);
    }
    assert_eq!(stack.end_layer(), LayerEnded::Closed);
    assert_eq!(stack.open_layers(), 0);
    assert_eq!(stack.depth(), 1);
}

#[test]
fn end_layer_past_the_depth_limit_without_a_layer_pops_nothing() {
    let mut stack = StateStack::new((0.0f32, 0.0f32));
    stack.save();
    assert!(stack.push_clip());
    while stack.depth() < MAX_STATE_DEPTH {
        stack.save();
    }
    stack.save(); // past the limit
    assert_eq!(stack.end_layer(), LayerEnded::NoLayer, "no layer anywhere: nothing to close");
    assert_eq!(stack.entries_past_limit().len(), 1);
    assert_eq!(stack.restore(), Restored::PastLimit, "pairs with the save past the limit");
    assert!(!stack.saturated());
    assert_eq!(stack.clips(), 1, "the clip is untouched");
    while stack.depth() > 2 {
        restore(&mut stack);
    }
    assert_eq!(stack.clips(), 1, "still armed at the level that took it");
    restore(&mut stack);
    assert_eq!(stack.clips(), 0);
}

#[test]
fn clips_past_the_depth_limit_cost_nothing_and_reset_clears_the_overflow() {
    let mut stack = StateStack::new((0.0f32, 0.0f32));
    while stack.depth() < MAX_STATE_DEPTH {
        stack.save();
    }
    for _ in 0..32 {
        stack.save();
        assert!(!stack.push_clip(), "a clip past the limit is not recorded");
        restore(&mut stack);
    }
    assert_eq!(stack.clips(), 0);
    assert!(!stack.saturated());

    for _ in 0..3 {
        stack.save();
    }
    assert!(stack.begin_layer());
    assert_eq!(stack.entries_past_limit().len(), 4);
    stack.reset((0.0, 0.0));
    assert!(!stack.saturated());
    assert_eq!(stack.open_layers(), 0);
}

#[derive(Clone)]
struct Level {
    layer: bool,
    transform: Translation,
    clips: Vec<RenderTarget>,
    // The render target to return to when this level is a layer.
    previous_target: RenderTarget,
}

/// A restore or layer end has popped levels: their clips go with them.
fn pop_clips(stack: &StateStack<Translation>, planes: &mut ClipPlanes) {
    planes.pop_to(stack.clips());
}

#[test]
fn random_api_sequences_keep_one_consistent_stack() {
    for seed in 0..48u64 {
        let mut rng = rand::rngs::StdRng::seed_from_u64(seed);
        let mut keys: SlotMap<DefaultKey, ()> = SlotMap::new();
        let image = RenderTarget::Image(ImageId(keys.insert(())));
        let mut stack = StateStack::new((0.0f32, 0.0f32));
        let mut planes = ClipPlanes::new();
        let mut model = vec![Level {
            layer: false,
            transform: (0.0, 0.0),
            clips: Vec::new(),
            previous_target: RenderTarget::Screen,
        }];
        let mut target = RenderTarget::Screen;
        let mut known_targets = vec![RenderTarget::Screen, image];

        for step in 0..160 {
            match rng.random_range(0..9) {
                0 => {
                    stack.save();
                    let top = model.last().unwrap().clone();
                    model.push(Level { layer: false, clips: Vec::new(), previous_target: target, ..top });
                }
                1 => {
                    restore(&mut stack);
                    pop_clips(&stack, &mut planes);
                    if model.len() > 1 {
                        let popped = model.pop().unwrap();
                        if popped.layer {
                            target = popped.previous_target;
                        }
                    }
                }
                2 => {
                    assert!(!stack.begin_layer());
                    let top = model.last().unwrap().clone();
                    model.push(Level { layer: true, clips: Vec::new(), previous_target: target, ..top });
                    // A captured layer redirects drawing to its store.
                    target = RenderTarget::Image(ImageId(keys.insert(())));
                    known_targets.push(target);
                }
                3 => {
                    stack.end_layer();
                    pop_clips(&stack, &mut planes);
                    if let Some(boundary) = model.iter().rposition(|level| level.layer) {
                        target = model[boundary].previous_target;
                        model.truncate(boundary);
                    }
                }
                4 => {
                    let _x: f32 = rng.random_range(0.0..40.0);
                    let _y: f32 = rng.random_range(0.0..40.0);
                    planes.reconcile(target);
                    planes.push(target);
                    assert!(stack.push_clip());
                    model.last_mut().unwrap().clips.push(target);
                }
                5 => {
                    planes.reconcile(target);
                }
                6 => {}
                7 => {
                    target = if rng.random_range(0..2) == 0 { RenderTarget::Screen } else { image };
                }
                _ => {
                    let (dx, dy): (f32, f32) = (rng.random_range(-8.0..8.0), rng.random_range(-8.0..8.0));
                    translate(&mut stack, dx, dy);
                    if !model.iter().any(|level| level.layer) {
                        let t = &mut model.last_mut().unwrap().transform;
                        *t = (t.0 + dx, t.1 + dy);
                    }
                }
            }

            let at = format!("seed {seed} step {step}");
            assert_eq!(stack.depth(), model.len(), "{at}: state stack");
            assert_eq!(
                stack.open_layers(),
                model.iter().filter(|level| level.layer).count(),
                "{at}: open layers"
            );
            let clips: Vec<RenderTarget> = model.iter().flat_map(|level| level.clips.iter().copied()).collect();
            assert_eq!(stack.clips(), clips.len(), "{at}: clip stack");
            assert_eq!(planes.len(), clips.len(), "{at}: clips in force");
            assert_eq!(stack.clip_depth(), clips.len(), "{at}: top level's clip depth");
            for known in &known_targets {
                let entries = clips.iter().filter(|entry| *entry == known).count();
                match planes.plane(*known) {
                    Some(plane) => assert_eq!(plane.count, entries, "{at}: plane count for {known:?}"),
                    None => assert_eq!(entries, 0, "{at}: plane for {known:?}"),
                }
            }
            if !model.iter().any(|level| level.layer) {
                assert_eq!(stack.state(), model.last().unwrap().transform, "{at}: transform");
            }
        }
    }
}

#[test]
fn a_save_and_its_restore_discard_the_state_set_between_them() {
    let mut stack = StateStack::new((1.0f32, 2.0f32));
    stack.save();
    stack.set_state((5.0, 6.0));
    assert_eq!(stack.restore(), Restored::Popped);
    assert_eq!(stack.state(), (1.0, 2.0));
    assert_eq!(stack.depth(), 1);
}

#[test]
fn a_clip_taken_between_a_save_and_its_restore_is_dropped() {
    let mut stack = StateStack::new((0.0f32, 0.0f32));
    assert!(stack.push_clip());
    stack.save();
    assert!(stack.push_clip());
    assert!(stack.push_clip());
    assert_eq!(stack.clips(), 3);
    assert_eq!(stack.clip_depth(), 3);
    assert_eq!(stack.restore(), Restored::Popped);
    assert_eq!(stack.clips(), 1);
    assert_eq!(stack.clip_depth(), 1);
}

#[test]
fn a_restore_reaching_a_layer_entry_closes_the_layer() {
    let mut stack = StateStack::new((0.0f32, 0.0f32));
    stack.save();
    assert!(!stack.begin_layer());
    stack.save();
    assert!(stack.push_clip());
    assert_eq!(stack.depth(), 4);
    assert_eq!(stack.restore(), Restored::Popped);
    assert_eq!(stack.restore(), Restored::ClosedLayer);
    assert_eq!(stack.depth(), 2, "the layer's own entry went");
    assert_eq!(stack.open_layers(), 0);
    assert_eq!(stack.end_layer(), LayerEnded::NoLayer, "nothing is left to close");
    assert_eq!(stack.depth(), 2);
}

#[test]
fn a_layer_end_discards_the_saves_left_open_inside_it() {
    let mut stack = StateStack::new((0.0f32, 0.0f32));
    assert!(!stack.begin_layer());
    stack.save();
    stack.save();
    translate(&mut stack, 3.0, 0.0);
    assert!(stack.push_clip());
    assert_eq!(stack.depth(), 4);
    assert_eq!(stack.end_layer(), LayerEnded::Closed);
    assert_eq!(stack.depth(), 1);
    assert_eq!(stack.clips(), 0);
    assert_eq!(stack.state(), (0.0, 0.0));
    assert_eq!(stack.end_layer(), LayerEnded::NoLayer);
    assert_eq!(stack.depth(), 1);
}

#[test]
fn a_reset_keeps_the_clips_of_outer_levels() {
    let mut stack = StateStack::new((0.0f32, 0.0f32));
    assert!(stack.push_clip());
    stack.save();
    translate(&mut stack, 4.0, 4.0);
    assert!(stack.push_clip());
    assert!(stack.push_clip());
    stack.reset((9.0, 9.0));
    assert_eq!(stack.depth(), 2);
    assert_eq!(stack.state(), (9.0, 9.0));
    assert_eq!(stack.clips(), 1, "the clip of the outer level stays in force");
    assert_eq!(stack.clip_depth(), 1);
}

#[test]
fn a_reset_discards_open_layers() {
    let mut stack = StateStack::new((0.0f32, 0.0f32));
    stack.save();
    assert!(!stack.begin_layer());
    stack.save();
    assert!(!stack.begin_layer());
    stack.save();
    assert_eq!(stack.depth(), 6);
    stack.reset((7.0, 0.0));
    assert_eq!(stack.open_layers(), 0);
    assert_eq!(stack.depth(), 2, "back to the level the outermost layer began on");
    assert_eq!(stack.state(), (7.0, 0.0));
}

#[test]
fn an_unmatched_restore_at_the_base_is_ignored() {
    let mut stack = StateStack::new((3.0f32, 0.0f32));
    assert_eq!(stack.restore(), Restored::AtBase);
    assert_eq!(stack.depth(), 1);
    assert_eq!(stack.state(), (3.0, 0.0));
}

#[test]
fn forgetting_clips_lowers_each_level_by_the_clips_below_it() {
    let mut stack = StateStack::new((0.0f32, 0.0f32));
    assert!(stack.push_clip()); // clip 0, level 0
    stack.save();
    assert!(stack.push_clip()); // clip 1, level 1
    assert!(stack.push_clip()); // clip 2, level 1
    stack.save();
    assert!(stack.push_clip()); // clip 3, level 2
    assert_eq!(stack.clips(), 4);
    stack.forget_clips(&vec![0, 2]);
    assert_eq!(stack.clips(), 2);
    assert_eq!(stack.clip_depth(), 2);
    assert_eq!(stack.restore(), Restored::Popped);
    assert_eq!(stack.clip_depth(), 1, "level 1 held clips 0..3, of which 0 and 2 went");
    assert_eq!(stack.clips(), 1);
    assert_eq!(stack.restore(), Restored::Popped);
    assert_eq!(stack.clip_depth(), 0, "level 0 held clip 0, which went");
    assert_eq!(stack.clips(), 0);
}
