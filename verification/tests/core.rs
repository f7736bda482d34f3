use vavo::system::conflict::{param_lists_conflict, system_lists_conflict, ConflictChecker};
use vavo::system::into::{check_borrow_conflicts, IntoSystem};
use vavo::system::label::{
    all_layer_labels, all_phase_labels, IntoSchedulerLocation, SchedulerLocation, FIXED_UPDATE,
    MAIN, UPDATE,
};
use vavo::system::label::layer::{End, Main};
use vavo::system::label::phase::{FixedUpdate, Update};
use vavo::system::label::{LayerLabel, PhaseLabel};
use vavo::system::order::{find_label, ordered_insert_index};
use vavo::system::params::{param_info, ParamInfo, TypeInfo};
use vavo::system::{System, SystemCondition, SystemExec};
use vavo::text::same_label;
use vavo::tick::Tick;

fn ty(name: &'static str, id: u64) -> TypeInfo {
    TypeInfo::new(name, id)
}

fn read(id: u64) -> ParamInfo {
    ParamInfo::new(false, ty("T", id))
}

fn write(id: u64) -> ParamInfo {
    ParamInfo::new(true, ty("T", id))
}

fn system(params: Vec<ParamInfo>) -> System<()> {
    System::new(SystemExec::new(params, ty("sys", 99), ()))
}

#[test]
fn tick_counts_up_and_resets() {
    let mut t = Tick::new();
    assert_eq!(t.get(), 0);
    t.tick();
    t.tick();
    assert_eq!(t.get(), 2);
    t.reset();
    assert_eq!(t.get(), 0);
    assert_eq!(Tick::default().get(), 0);
}

#[test]
fn labels_compare_by_content() {
    let owned = String::from("Update");
    assert!(same_label(&owned, UPDATE));
    assert!(!same_label("Updat", UPDATE));
    assert!(!same_label("Uqdate", UPDATE));
    assert!(same_label("", ""));
}

#[test]
fn type_and_param_info_getters() {
    let t = ty("Position", 7);
    assert_eq!(t.name(), "Position");
    assert_eq!(t.type_id(), 7);
    let p = ParamInfo::new(true, t);
    assert!(p.is_mutable());
    assert_eq!(p.type_info().type_id(), 7);
    let list = param_info(false, t);
    assert_eq!(list.len(), 1);
    assert!(!list[0].is_mutable());
    assert_eq!(list[0].type_info().name(), "Position");
}

#[test]
fn params_conflict_only_on_same_type_with_a_write() {
    assert!(write(1).is_conflicting_with(&read(1)));
    assert!(read(1).is_conflicting_with(&write(1)));
    assert!(write(1).is_conflicting_with(&write(1)));
    assert!(!read(1).is_conflicting_with(&read(1)));
    assert!(!write(1).is_conflicting_with(&write(2)));
}

#[test]
fn param_lists_conflict_when_any_pair_does() {
    assert!(param_lists_conflict(&[read(1), read(2)], &[read(3), write(2)]));
    assert!(!param_lists_conflict(&[read(1), read(2)], &[read(1), write(3)]));
    assert!(!param_lists_conflict(&[], &[write(1)]));
    assert!(vec![write(5)].is_conflicting_with(&vec![read(4), read(5)]));
}

#[test]
fn conflict_is_symmetric_on_examples() {
    let a = vec![read(1), write(2)];
    let b = vec![read(2)];
    assert_eq!(a.is_conflicting_with(&b), b.is_conflicting_with(&a));
    let c = vec![read(1)];
    assert_eq!(a.is_conflicting_with(&c), c.is_conflicting_with(&a));
}

#[test]
fn systems_conflict_through_main_and_conditions() {
    let a = system(vec![read(1)]);
    let b = system(vec![read(1)]);
    assert!(!a.is_conflicting_with(&b));

    let c = system(vec![write(1)]);
    assert!(a.is_conflicting_with(&c));

    // a condition of the first system writing what the second reads
    let cond = SystemCondition::new(SystemExec::new(vec![write(3)], ty("cond", 50), ()));
    let d = system(vec![read(1)]).run_if(cond);
    let e = system(vec![read(3)]);
    assert!(d.is_conflicting_with(&e));
    // the other way round the condition of `d` is weighed against `e`'s main function too
    assert!(e.is_conflicting_with(&d));
    // a condition that only reads what the other system reads does not conflict
    let quiet = SystemCondition::new(SystemExec::new(vec![read(3)], ty("cond", 51), ()));
    let f = system(vec![read(1)]).run_if(quiet);
    assert!(!f.is_conflicting_with(&e));
    assert!(!e.is_conflicting_with(&f));
}

#[test]
fn system_lists_conflict_when_any_pair_does() {
    let xs = vec![system(vec![read(1)]), system(vec![read(2)])];
    let ys = vec![system(vec![write(2)])];
    let zs = vec![system(vec![write(9)])];
    assert!(system_lists_conflict(&xs, &ys));
    assert!(!system_lists_conflict(&xs, &zs));
    assert!(xs.is_conflicting_with(&ys));
}

#[test]
fn borrow_check_finds_first_clash() {
    assert!(check_borrow_conflicts(&[read(1), read(2), read(1)]).is_none());
    let clash = check_borrow_conflicts(&[read(1), write(2), read(2), write(1)]);
    assert_eq!(clash.map(|t| t.type_id()), Some(2));
    let clash = check_borrow_conflicts(&[write(4), read(4)]);
    assert_eq!(clash.map(|t| t.type_id()), Some(4));
    assert!(check_borrow_conflicts(&[]).is_none());
}

#[test]
fn builtin_labels_in_order() {
    let phases = all_phase_labels();
    assert_eq!(
        phases,
        vec![
            "PreStartup", "Startup", "First", "PreUpdate", "FixedUpdate", "Update", "PostUpdate",
            "Last", "PreRender", "Render", "PostRender", "FrameEnd"
        ]
    );
    assert_eq!(all_layer_labels(), vec!["Pre", "Start", "Main", "End", "Post"]);
    assert_eq!(phases[4], FIXED_UPDATE);
}

#[test]
fn default_location_is_main_layer_of_update() {
    let loc = SchedulerLocation::default();
    assert_eq!(loc.phase_label(), UPDATE);
    assert_eq!(loc.layer_label(), MAIN);
    let got = loc.get();
    assert_eq!(got.phase, "Update");
    assert_eq!(got.layer, "Main");
}

#[test]
fn find_label_gives_first_position() {
    let labels = vec!["A", "B", "C", "B"];
    assert_eq!(find_label(&labels, "B"), Some(1));
    assert_eq!(find_label(&labels, "C"), Some(2));
    assert_eq!(find_label(&labels, "D"), None);
}

#[test]
fn insert_index_respects_before_and_after() {
    let labels = vec!["A", "B", "C", "D"];
    // no constraints: at the end
    assert_eq!(ordered_insert_index(&labels, &vec![], &vec![]), Some(4));
    // before C: right before it
    assert_eq!(ordered_insert_index(&labels, &vec!["C"], &vec![]), Some(2));
    // after B, before D: right behind B
    assert_eq!(ordered_insert_index(&labels, &vec!["D"], &vec!["B"]), Some(2));
    // after several: right behind the last of them
    assert_eq!(ordered_insert_index(&labels, &vec![], &vec!["C", "A"]), Some(3));
    // before the earliest of several
    assert_eq!(ordered_insert_index(&labels, &vec!["D", "B"], &vec![]), Some(1));
    // unknown labels are ignored
    assert_eq!(ordered_insert_index(&labels, &vec!["X"], &vec!["Y"]), Some(4));
    // after C but before B: impossible
    assert_eq!(ordered_insert_index(&labels, &vec!["B"], &vec!["C"]), None);
}

#[test]
fn label_types_name_locations() {
    assert_eq!(<Update as PhaseLabel>::label(), "Update");
    assert_eq!(<Main as LayerLabel>::label(), "Main");
    let loc = Update.layer(Main);
    assert_eq!((loc.phase, loc.layer), ("Update", "Main"));
    let loc = FixedUpdate.layer(End);
    assert_eq!((loc.phase, loc.layer), ("FixedUpdate", "End"));
}
