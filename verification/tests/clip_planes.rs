use femtovg::{ClipPlane, ClipPlanes, GlyphTexture, ImageId, RenderTarget, StateStack};
use slotmap::{DefaultKey, SlotMap};

fn two_images() -> (RenderTarget, RenderTarget) {
    let mut keys: SlotMap<DefaultKey, ()> = SlotMap::new();
    let a = ImageId(keys.insert(()));
    let b = ImageId(keys.insert(()));
    (RenderTarget::Image(a), RenderTarget::Image(b))
}

#[test]
fn each_plane_counts_the_clips_taken_on_its_target() {
    let (image, _) = two_images();
    let mut planes = ClipPlanes::new();
    assert!(!planes.clip_active(RenderTarget::Screen));
    planes.push(RenderTarget::Screen);
    planes.push(image);
    planes.push(RenderTarget::Screen);
    assert_eq!(planes.len(), 3);
    assert_eq!(planes.plane(RenderTarget::Screen), Some(ClipPlane { count: 2, dirty: false }));
    assert_eq!(planes.plane(image), Some(ClipPlane { count: 1, dirty: false }));
    assert!(planes.clip_active(RenderTarget::Screen));
    assert!(planes.clip_active(image));
}

#[test]
fn popping_clips_marks_their_planes_dirty() {
    let (image, other) = two_images();
    let mut planes = ClipPlanes::new();
    planes.push(RenderTarget::Screen);
    planes.push(image);
    planes.push(image);
    planes.pop_to(1);
    assert_eq!(planes.len(), 1);
    assert_eq!(planes.plane(image), Some(ClipPlane { count: 0, dirty: true }));
    assert_eq!(planes.plane(RenderTarget::Screen), Some(ClipPlane { count: 1, dirty: false }));
    assert!(!planes.clip_active(image));
    assert_eq!(planes.plane(other), None);
    planes.pop_to(5);
    assert_eq!(planes.len(), 1, "popping to a depth past the clips in force pops nothing");
}

#[test]
fn reconciling_a_dirty_plane_asks_for_one_replay() {
    let (image, _) = two_images();
    let mut planes = ClipPlanes::new();
    planes.push(image);
    planes.push(image);
    assert!(!planes.reconcile(image), "a clean plane needs no replay");
    planes.pop_to(1);
    assert!(planes.reconcile(image));
    assert_eq!(planes.plane(image), Some(ClipPlane { count: 1, dirty: false }));
    assert!(!planes.reconcile(image), "consecutive restores replay once");
    planes.pop_to(0);
    assert!(planes.reconcile(image));
    assert_eq!(planes.plane(image), None, "a plane left with no clip goes");
}

#[test]
fn forgetting_a_target_gives_the_positions_of_its_clips() {
    let (image, other) = two_images();
    let mut planes = ClipPlanes::new();
    planes.push(image);
    planes.push(RenderTarget::Screen);
    planes.push(image);
    planes.push(other);
    assert_eq!(planes.forget_target(image), vec![0, 2]);
    assert_eq!(planes.len(), 2);
    assert_eq!(planes.plane(image), None);
    assert_eq!(planes.plane(RenderTarget::Screen), Some(ClipPlane { count: 1, dirty: false }));
    assert_eq!(planes.plane(other), Some(ClipPlane { count: 1, dirty: false }));
    assert_eq!(planes.forget_target(image), Vec::<usize>::new(), "a target without a plane holds no clip");
}

#[test]
fn forgetting_a_target_keeps_the_state_stack_in_step() {
    let (image, _) = two_images();
    let mut planes = ClipPlanes::new();
    let mut stack = StateStack::new(0u8);
    for target in [image, RenderTarget::Screen] {
        planes.push(target);
        assert!(stack.push_clip());
        stack.save();
    }
    planes.push(image);
    assert!(stack.push_clip());
    assert_eq!(stack.clips(), planes.len());
    let removed = planes.forget_target(image);
    stack.forget_clips(&removed);
    assert_eq!(stack.clips(), planes.len());
    assert_eq!(stack.clip_depth(), 1);
    stack.restore();
    planes.pop_to(stack.clips());
    assert_eq!(stack.clip_depth(), 1, "the level that took the screen clip still holds it");
    stack.restore();
    planes.pop_to(stack.clips());
    assert_eq!(stack.clip_depth(), 0);
    assert_eq!(planes.len(), 0);
}

#[test]
fn a_glyph_texture_names_its_image() {
    let mut keys: SlotMap<DefaultKey, ()> = SlotMap::new();
    let mask = ImageId(keys.insert(()));
    let color = ImageId(keys.insert(()));
    assert_eq!(GlyphTexture::default(), GlyphTexture::NoTexture);
    assert_eq!(GlyphTexture::NoTexture.image_id(), None);
    assert_eq!(GlyphTexture::AlphaMask(mask).image_id(), Some(mask));
    assert_eq!(GlyphTexture::ColorTexture(color).image_id(), Some(color));
    assert_ne!(mask, color);
}
