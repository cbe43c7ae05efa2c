use render_core::bindings::UniformBindingsDesc;
use render_core::circle::{set_trig_time, CirclePipleine};
use render_core::layout::set_time;
use render_core::object_handles::HandleCounters;
use render_core::object_pool::OrderedObjectPool;
use render_core::pipeline::PipelineDescWrapper;
use render_core::registry::{DrawRecord, ResourceAction, ObjectResourcePool, UpdateError};
use render_core::scene::Scene;
use render_core::single_object::SingleObject;
use render_core::uniform::{UniformBufferState, UniformImageState};
use render_core::updates::{
    BufferUpdateCmd, CollectDrawStateUpdates, GraphicsUpdateCmd, ImageCmd, ObjectUpdate2DCmd,
    UniformBufferCmd,
};

static VS: [u8; 4] = [3, 2, 0x23, 7];
static FS: [u8; 4] = [3, 2, 0x23, 7];

fn circle_pipeline() -> PipelineDescWrapper {
    CirclePipleine::collect(1, "circle", &VS, &FS)
}

fn no_bindings() -> UniformBindingsDesc {
    UniformBindingsDesc::from_pairs(&[], &[])
}

#[test]
fn uniform_buffer_first_collect_creates() {
    let mut c = HandleCounters::new();
    let u = UniformBufferState::new(vec![1, 2, 3, 4], &mut c);
    assert_eq!(u.id(), 0);
    let cmds = u.collect_updates();
    assert_eq!(cmds.len(), 1);
    match &cmds[0] {
        GraphicsUpdateCmd::UniformBuffer(id, UniformBufferCmd::Create(d)) => {
            assert_eq!(*id, 0);
            assert_eq!(d.modified_bytes, &[1, 2, 3, 4]);
            assert_eq!(d.buffer_offset, 0);
        }
        _ => panic!("expected a creation"),
    }
}

#[test]
fn uniform_buffer_after_clear_sends_only_changes() {
    let mut c = HandleCounters::new();
    let mut u = UniformBufferState::new(vec![0; 16], &mut c);
    u.clear_updates();
    assert!(u.collect_updates().is_empty());
    u.modify_field(4..6, &[7, 7]);
    let cmds = u.collect_updates();
    assert_eq!(cmds.len(), 1);
    match &cmds[0] {
        GraphicsUpdateCmd::UniformBuffer(_, UniformBufferCmd::Update(BufferUpdateCmd::Update(d))) => {
            assert_eq!(d.modified_bytes, &[7, 7]);
            assert_eq!(d.buffer_offset, 4);
        }
        _ => panic!("expected an update"),
    }
    u.clear_updates();
    u.set(vec![1; 16]);
    let cmds = u.collect_updates();
    match &cmds[0] {
        GraphicsUpdateCmd::UniformBuffer(_, UniformBufferCmd::Update(BufferUpdateCmd::Update(d))) => {
            assert_eq!(d.modified_bytes, &[1; 16]);
            assert_eq!(d.buffer_offset, 0);
        }
        _ => panic!("expected an update"),
    }
}

#[test]
fn time_uniform_updates_its_word() {
    let mut c = HandleCounters::new();
    let mut u = UniformBufferState::new(vec![0; 16], &mut c);
    u.clear_updates();
    let mut s = render_core::state::StateUpdatesBytes::new(vec![0; 16]);
    s.clear_modified();
    set_time(&mut s, 5);
    let (b, off) = s.modified_range().unwrap();
    u.modify_field(off..off + b.len(), b);
    assert_eq!(u.state().modified_range().unwrap(), (&[5u8, 0, 0, 0][..], 0));
}

#[test]
fn image_first_collect_creates_then_nothing() {
    let mut c = HandleCounters::new();
    let mut img = UniformImageState::new("textures/a.png".to_string(), &mut c);
    assert_eq!(img.id(), 0);
    assert_eq!(img.id, 0);
    let cmds = img.collect_updates();
    assert_eq!(cmds.len(), 1);
    match &cmds[0] {
        GraphicsUpdateCmd::Image(0, ImageCmd::Create(p)) => assert_eq!(p, "textures/a.png"),
        _ => panic!("expected an image creation"),
    }
    img.clear_updates();
    assert!(img.collect_updates().is_empty());
    assert!(img.new_image_path.is_none());
}

#[test]
fn single_object_create_then_update() {
    let mut c = HandleCounters::new();
    let mut o = SingleObject::new(vec![0; 32], circle_pipeline(), no_bindings(), &mut c);
    assert_eq!(o.id(), 0);
    assert_eq!(o.get_pipeline_info().id, 1);
    {
        let cmds = o.collect_updates();
        assert_eq!(cmds.len(), 1);
        match &cmds[0] {
            GraphicsUpdateCmd::Object2D(0, ObjectUpdate2DCmd::Create { pipeline_desc, initial_state, .. }) => {
                assert_eq!(pipeline_desc.id, 1);
                assert_eq!(initial_state.modified_bytes.len(), 32);
                assert_eq!(initial_state.buffer_offset, 0);
            }
            _ => panic!("expected an object creation"),
        }
    }
    o.clear_updates();
    assert!(o.collect_updates().is_empty());
    o.modify_field(24..28, &[1, 0, 0, 0]);
    let cmds = o.collect_updates();
    match &cmds[0] {
        GraphicsUpdateCmd::Object2D(0, ObjectUpdate2DCmd::AttribUpdate(BufferUpdateCmd::Update(d))) => {
            assert_eq!(d.modified_bytes, &[1, 0, 0, 0]);
            assert_eq!(d.buffer_offset, 24);
        }
        _ => panic!("expected an attribute update"),
    }
}

#[test]
fn single_object_set_resends_all() {
    let mut c = HandleCounters::new();
    let mut o = SingleObject::new(vec![0; 4], circle_pipeline(), no_bindings(), &mut c);
    o.clear_updates();
    o.set(vec![1, 2, 3, 4]);
    assert_eq!(o.attributes().modified_range().unwrap(), (&[1u8, 2, 3, 4][..], 0));
}

fn count_creations(cmds: &[GraphicsUpdateCmd]) -> usize {
    cmds.iter()
        .filter(|c| matches!(c, GraphicsUpdateCmd::Object2D(_, ObjectUpdate2DCmd::Create { .. })))
        .count()
}

#[test]
fn pool_entries_come_in_key_order() {
    let mut c = HandleCounters::new();
    let mut pool = OrderedObjectPool::new(circle_pipeline(), no_bindings(), vec![0; 32]);
    pool.create(30, vec![3; 32], &mut c);
    pool.create(10, vec![1; 32], &mut c);
    set_trig_time(pool.entry(20, &mut c), 9);
    let cmds = pool.collect_updates();
    assert_eq!(cmds.len(), 3);
    assert_eq!(count_creations(&cmds), 3);
    let ids: Vec<usize> = cmds
        .iter()
        .map(|c| match c {
            GraphicsUpdateCmd::Object2D(id, _) => *id,
            _ => usize::MAX,
        })
        .collect();
    // keys 10, 20, 30 were given ids 1, 2, 0
    assert_eq!(ids, vec![1, 2, 0]);
    match &cmds[1] {
        GraphicsUpdateCmd::Object2D(_, ObjectUpdate2DCmd::Create { initial_state, .. }) => {
            assert_eq!(&initial_state.modified_bytes[24..28], &[9, 0, 0, 0]);
        }
        _ => panic!("expected a creation"),
    }
}

#[test]
fn pool_create_existing_key_changes_nothing() {
    let mut c = HandleCounters::new();
    let mut pool = OrderedObjectPool::new(circle_pipeline(), no_bindings(), vec![0; 4]);
    pool.create(5, vec![1; 4], &mut c);
    pool.create(5, vec![2; 4], &mut c);
    let cmds = pool.collect_updates();
    assert_eq!(cmds.len(), 1);
    match &cmds[0] {
        GraphicsUpdateCmd::Object2D(0, ObjectUpdate2DCmd::Create { initial_state, .. }) => {
            assert_eq!(initial_state.modified_bytes, &[1, 1, 1, 1]);
        }
        _ => panic!("expected a creation"),
    }
    let mut fresh = HandleCounters::new();
    let mut other = OrderedObjectPool::new(circle_pipeline(), no_bindings(), vec![0; 4]);
    other.create(1, vec![1; 4], &mut fresh);
    assert_eq!(render_core::object_handles::get_new_object_id(&mut fresh), 1);
}

#[test]
fn pool_entry_of_existing_key_edits_it() {
    let mut c = HandleCounters::new();
    let mut pool = OrderedObjectPool::new(circle_pipeline(), no_bindings(), vec![0; 4]);
    pool.create(5, vec![1; 4], &mut c);
    pool.clear_updates();
    assert!(pool.collect_updates().is_empty());
    pool.entry(5, &mut c).modify_field(0..1, &[9]);
    let cmds = pool.collect_updates();
    assert_eq!(cmds.len(), 1);
    match &cmds[0] {
        GraphicsUpdateCmd::Object2D(0, ObjectUpdate2DCmd::AttribUpdate(BufferUpdateCmd::Update(d))) => {
            assert_eq!(d.modified_bytes, &[9]);
            assert_eq!(d.buffer_offset, 0);
        }
        _ => panic!("expected an attribute update"),
    }
}

#[test]
fn pool_remove_queues_destroy() {
    let mut c = HandleCounters::new();
    let mut pool = OrderedObjectPool::new(circle_pipeline(), no_bindings(), vec![0; 4]);
    pool.create(5, vec![1; 4], &mut c);
    pool.create(6, vec![1; 4], &mut c);
    pool.clear_updates();
    assert!(pool.remove(&5));
    assert!(!pool.remove(&5));
    assert!(!pool.remove(&99));
    let cmds = pool.collect_updates();
    assert_eq!(cmds.len(), 1);
    assert!(matches!(cmds[0], GraphicsUpdateCmd::Object2D(0, ObjectUpdate2DCmd::Destroy)));
    drop(cmds);
    pool.clear_updates();
    assert!(pool.collect_updates().is_empty());
}

#[test]
fn pool_auto_remove_drops_keys_below_threshold() {
    let mut c = HandleCounters::new();
    let mut pool = OrderedObjectPool::new(circle_pipeline(), no_bindings(), vec![0; 4]);
    pool.create(100, vec![1; 4], &mut c); // id 0
    pool.create(200, vec![1; 4], &mut c); // id 1
    pool.clear_updates();
    pool.create(150, vec![1; 4], &mut c); // id 2, not yet handed out
    pool.create(300, vec![1; 4], &mut c); // id 3
    pool.auto_remove(201);
    let cmds = pool.collect_updates();
    // the handed-out objects 0 and 1 are destroyed, in key order; the new object 2 vanishes
    // without a trace; object 3 is created
    assert_eq!(cmds.len(), 3);
    assert!(matches!(cmds[0], GraphicsUpdateCmd::Object2D(0, ObjectUpdate2DCmd::Destroy)));
    assert!(matches!(cmds[1], GraphicsUpdateCmd::Object2D(1, ObjectUpdate2DCmd::Destroy)));
    assert!(matches!(cmds[2], GraphicsUpdateCmd::Object2D(3, ObjectUpdate2DCmd::Create { .. })));
}

#[test]
fn pool_auto_remove_with_low_threshold_keeps_all() {
    let mut c = HandleCounters::new();
    let mut pool = OrderedObjectPool::new(circle_pipeline(), no_bindings(), vec![0; 4]);
    pool.create(100, vec![1; 4], &mut c);
    pool.auto_remove(100);
    assert_eq!(pool.collect_updates().len(), 1);
    assert_eq!(pool.get_pipeline_info().name, "circle");
}

fn new_scene(c: &mut HandleCounters) -> Scene {
    Scene::new(
        vec![0; 16],
        vec![0; 16],
        "map.png".to_string(),
        vec![0; 32],
        vec![0; 32],
        circle_pipeline(),
        c,
    )
}

#[test]
fn scene_first_collect_order() {
    let mut c = HandleCounters::new();
    let scene = new_scene(&mut c);
    assert_eq!(scene.time.id(), 0);
    assert_eq!(scene.map_stats.id(), 1);
    assert_eq!(scene.image.id(), 2);
    assert_eq!(scene.mirror_lamp.id(), 0);
    let cmds = scene.collect_updates();
    assert_eq!(cmds.len(), 4);
    assert!(matches!(cmds[0], GraphicsUpdateCmd::UniformBuffer(0, UniformBufferCmd::Create(_))));
    assert!(matches!(cmds[1], GraphicsUpdateCmd::UniformBuffer(1, UniformBufferCmd::Create(_))));
    assert!(matches!(cmds[2], GraphicsUpdateCmd::Image(2, ImageCmd::Create(_))));
    match &cmds[3] {
        GraphicsUpdateCmd::Object2D(0, ObjectUpdate2DCmd::Create { uniform_bindings_desc, .. }) => {
            assert_eq!(uniform_bindings_desc.buffer_bindings.as_slice(), &[(0, 0), (1, 1)]);
            assert_eq!(uniform_bindings_desc.image_bindings.as_slice(), &[(2, 2)]);
        }
        _ => panic!("expected the lamp"),
    }
}

#[test]
fn scene_clear_leaves_nothing_pending() {
    let mut c = HandleCounters::new();
    let mut scene = new_scene(&mut c);
    scene.trail.create(5, vec![0; 32], &mut c);
    scene.clear_updates();
    assert!(scene.collect_updates().is_empty());
}

#[test]
fn fresh_scene_is_accepted_by_fresh_registry() {
    let mut c = HandleCounters::new();
    let mut scene = new_scene(&mut c);
    scene.trail.create(10, vec![0; 32], &mut c);
    let mut reg = ObjectResourcePool::new();
    let cmds = scene.collect_updates();
    let mut actions = Vec::new();
    for cmd in &cmds {
        assert_eq!(reg.refusal(cmd), None);
        actions.push(reg.process(cmd));
    }
    assert_eq!(
        actions,
        vec![
            ResourceAction::CreateUniformBuffer { id: 0 },
            ResourceAction::CreateUniformBuffer { id: 1 },
            ResourceAction::CreateImage { id: 2 },
            ResourceAction::CreateObject {
                id: 0,
                pipeline_id: 1,
                create_pipeline: true,
                record: DrawRecord { vertex_count: 4, instance_count: 1, pipeline_id: 1 },
            },
            ResourceAction::CreateObject {
                id: 1,
                pipeline_id: 1,
                create_pipeline: false,
                record: DrawRecord { vertex_count: 4, instance_count: 1, pipeline_id: 1 },
            },
        ]
    );
    let rec = DrawRecord { vertex_count: 4, instance_count: 1, pipeline_id: 1 };
    assert_eq!(reg.draw_list(), vec![(1, rec), (0, rec)]);
    drop(cmds);
    scene.clear_updates();
    // later changes are accepted too
    set_trig_time(scene.trail.entry(10, &mut c), 3);
    let cmds = scene.collect_updates();
    assert_eq!(cmds.len(), 1);
    assert_eq!(reg.process(&cmds[0]), ResourceAction::WriteObject { id: 1, offset: 24 });
}

#[test]
fn registry_create_then_destroy_object() {
    let mut c = HandleCounters::new();
    let mut reg = ObjectResourcePool::new();
    let o = SingleObject::new(vec![0; 8], circle_pipeline(), no_bindings(), &mut c);
    let cmds = o.collect_updates();
    assert!(matches!(reg.process(&cmds[0]), ResourceAction::CreateObject { id: 0, .. }));
    assert_eq!(reg.draw_list().len(), 1);
    let destroy = GraphicsUpdateCmd::object_update_2d(0, ObjectUpdate2DCmd::Destroy);
    assert_eq!(reg.process(&destroy), ResourceAction::DestroyObject { id: 0 });
    assert!(reg.draw_list().is_empty());
    assert_eq!(reg.refusal(&destroy), Some(UpdateError::ObjectMissing(0)));
}

#[test]
fn registry_refuses_duplicate_object() {
    let mut c = HandleCounters::new();
    let mut reg = ObjectResourcePool::new();
    let o = SingleObject::new(vec![0; 8], circle_pipeline(), no_bindings(), &mut c);
    let cmds = o.collect_updates();
    assert_eq!(reg.refusal(&cmds[0]), None);
    reg.process(&cmds[0]);
    assert_eq!(reg.refusal(&cmds[0]), Some(UpdateError::ObjectExists(0)));
}

#[test]
fn registry_refuses_missing_bindings() {
    let mut c = HandleCounters::new();
    let mut reg = ObjectResourcePool::new();
    let o = SingleObject::new(
        vec![0; 8],
        circle_pipeline(),
        UniformBindingsDesc::from_pairs(&[(0, 42)], &[]),
        &mut c,
    );
    let cmds = o.collect_updates();
    assert_eq!(reg.refusal(&cmds[0]), Some(UpdateError::UniformBufferMissing(42)));
    let o2 = SingleObject::new(
        vec![0; 8],
        circle_pipeline(),
        UniformBindingsDesc::from_pairs(&[], &[(2, 43)]),
        &mut c,
    );
    let cmds2 = o2.collect_updates();
    assert_eq!(reg.refusal(&cmds2[0]), Some(UpdateError::ImageMissing(43)));
    assert!(reg.draw_list().is_empty());
}

#[test]
fn registry_refuses_nonzero_creation_offset() {
    let mut reg = ObjectResourcePool::new();
    let bytes = [1u8, 2];
    let cmd = GraphicsUpdateCmd::uniform_buffer_update(
        3,
        UniformBufferCmd::Create(render_core::updates::BufferUpdateData {
            modified_bytes: &bytes,
            buffer_offset: 4,
        }),
    );
    assert_eq!(reg.refusal(&cmd), Some(UpdateError::NonZeroOffset(4)));
    let obj = GraphicsUpdateCmd::object_update_2d(
        9,
        ObjectUpdate2DCmd::Create {
            pipeline_desc: circle_pipeline(),
            uniform_bindings_desc: no_bindings(),
            initial_state: render_core::updates::BufferUpdateData { modified_bytes: &bytes, buffer_offset: 1 },
        },
    );
    assert_eq!(reg.refusal(&obj), Some(UpdateError::NonZeroOffset(1)));
}

#[test]
fn registry_uniform_buffer_lifecycle() {
    let mut reg = ObjectResourcePool::new();
    let bytes = [1u8, 2];
    let create = GraphicsUpdateCmd::uniform_buffer_update(
        3,
        UniformBufferCmd::Create(render_core::updates::BufferUpdateData { modified_bytes: &bytes, buffer_offset: 0 }),
    );
    assert_eq!(reg.process(&create), ResourceAction::CreateUniformBuffer { id: 3 });
    assert_eq!(reg.refusal(&create), Some(UpdateError::UniformBufferExists(3)));
    let write = GraphicsUpdateCmd::uniform_buffer_update(
        3,
        UniformBufferCmd::Update(BufferUpdateCmd::Update(render_core::updates::BufferUpdateData {
            modified_bytes: &bytes,
            buffer_offset: 8,
        })),
    );
    assert_eq!(reg.process(&write), ResourceAction::WriteUniformBuffer { id: 3, offset: 8 });
    let write_missing = GraphicsUpdateCmd::uniform_buffer_update(
        4,
        UniformBufferCmd::Update(BufferUpdateCmd::Update(render_core::updates::BufferUpdateData {
            modified_bytes: &bytes,
            buffer_offset: 0,
        })),
    );
    assert_eq!(reg.refusal(&write_missing), Some(UpdateError::UniformBufferMissing(4)));
    let destroy = GraphicsUpdateCmd::uniform_buffer_update(3, UniformBufferCmd::Destroy);
    assert_eq!(reg.refusal(&destroy), Some(UpdateError::Unimplemented));
    let resize = GraphicsUpdateCmd::uniform_buffer_update(3, UniformBufferCmd::Update(BufferUpdateCmd::Resize(4)));
    assert_eq!(reg.refusal(&resize), Some(UpdateError::Unimplemented));
}

#[test]
fn registry_image_lifecycle() {
    let mut reg = ObjectResourcePool::new();
    let create = GraphicsUpdateCmd::image_update(5, ImageCmd::Create("a.png".to_string()));
    assert_eq!(reg.process(&create), ResourceAction::CreateImage { id: 5 });
    assert_eq!(reg.refusal(&create), Some(UpdateError::ImageExists(5)));
    let destroy = GraphicsUpdateCmd::image_update(5, ImageCmd::Destroy);
    assert_eq!(reg.refusal(&destroy), Some(UpdateError::Unimplemented));
}

#[test]
fn registry_refuses_write_to_missing_object_and_rearrange() {
    let mut reg = ObjectResourcePool::new();
    let bytes = [1u8];
    let write = GraphicsUpdateCmd::object_update_2d(
        7,
        ObjectUpdate2DCmd::AttribUpdate(BufferUpdateCmd::Update(render_core::updates::BufferUpdateData {
            modified_bytes: &bytes,
            buffer_offset: 0,
        })),
    );
    assert_eq!(reg.refusal(&write), Some(UpdateError::ObjectMissing(7)));
    let rearrange = GraphicsUpdateCmd::object_update_2d(
        7,
        ObjectUpdate2DCmd::AttribUpdate(BufferUpdateCmd::Rearrange(vec![(0..4, 8)])),
    );
    assert_eq!(reg.refusal(&rearrange), Some(UpdateError::Unimplemented));
}

#[test]
fn draw_list_is_highest_id_first() {
    let mut c = HandleCounters::new();
    let mut reg = ObjectResourcePool::new();
    let a = SingleObject::new(vec![0; 4], circle_pipeline(), no_bindings(), &mut c);
    let b = SingleObject::new(vec![0; 4], circle_pipeline(), no_bindings(), &mut c);
    let cb = b.collect_updates();
    let ca = a.collect_updates();
    reg.process(&cb[0]);
    reg.process(&ca[0]);
    let ids: Vec<usize> = reg.draw_list().iter().map(|(id, _)| *id).collect();
    assert_eq!(ids, vec![1, 0]);
}

#[test]
fn update_objects_after_checking_for_refusal() {
    let mut c = HandleCounters::new();
    let scene = new_scene(&mut c);
    let cmds = scene.collect_updates();
    let mut reg = ObjectResourcePool::new();
    assert_eq!(reg.first_refusal(&cmds), None);
    let actions = reg.update_objects(&cmds);
    assert_eq!(actions.len(), 4);
    assert_eq!(actions[3], ResourceAction::CreateObject {
        id: 0,
        pipeline_id: 1,
        create_pipeline: true,
        record: DrawRecord { vertex_count: 4, instance_count: 1, pipeline_id: 1 },
    });
    // the same commands again: the first uniform buffer already exists
    assert_eq!(reg.first_refusal(&cmds), Some(UpdateError::UniformBufferExists(0)));
    assert_eq!(reg.draw_list().len(), 1);
}

#[test]
fn removing_a_trail_circle_before_it_is_handed_out_is_refused() {
    let mut c = HandleCounters::new();
    let mut scene = new_scene(&mut c);
    let mut reg = ObjectResourcePool::new();
    {
        let cmds = scene.collect_updates();
        assert_eq!(reg.first_refusal(&cmds), None);
        reg.update_objects(&cmds);
    }
    scene.clear_updates();
    scene.trail.create(5, vec![0; 32], &mut c);
    assert!(scene.trail.remove(&5));
    let cmds = scene.collect_updates();
    assert_eq!(reg.first_refusal(&cmds), Some(UpdateError::ObjectMissing(1)));
}

#[test]
fn many_frames_are_all_accepted() {
    let mut c = HandleCounters::new();
    let mut scene = new_scene(&mut c);
    let mut reg = ObjectResourcePool::new();
    for frame in 0..20u64 {
        let key = frame * 300;
        scene.trail.create(key, vec![frame as u8; 32], &mut c);
        if frame % 3 == 1 {
            set_trig_time(scene.trail.entry(key, &mut c), frame as u32);
        }
        if frame % 4 == 2 {
            scene.trail.remove(&(key - 300));
        }
        scene.trail.auto_remove(key.saturating_sub(2000));
        scene.mirror_lamp.modify_field(24..28, &[1, 0, 0, 0]);
        let cmds = scene.collect_updates();
        assert_eq!(reg.first_refusal(&cmds), None, "frame {}", frame);
        reg.update_objects(&cmds);
        drop(cmds);
        scene.clear_updates();
    }
    // lamp plus the circles kept after the last threshold
    assert!(reg.draw_list().len() >= 2);
}

#[test]
fn uniform_ids_made_apart_differ() {
    let mut c = HandleCounters::new();
    let a = UniformImageState::new("a.png".to_string(), &mut c);
    let _b = UniformBufferState::new(vec![0; 4], &mut c);
    let _o = SingleObject::new(vec![0; 4], circle_pipeline(), no_bindings(), &mut c);
    let mut d = UniformImageState::new("d.png".to_string(), &mut c);
    assert_eq!((a.id(), d.id()), (0, 2));
    let _ = d.collect_updates();
    d.clear_updates();
    assert_eq!(d.id(), 2);
    assert!(d.new_image_path.is_none());
}
