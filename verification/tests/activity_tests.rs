use lfg_core::Activity;
use lfg_core::ActivityType;

fn count_distinct(names: Vec<&str>) -> usize {
    let mut seen: Vec<&str> = Vec::new();
    for n in names {
        if !seen.contains(&n) {
            seen.push(n);
        }
    }
    seen.len()
}

#[test]
fn no_conflicting_activity_types() {
    let all = ActivityType::all();
    let names: Vec<&str> = all.iter().map(|t| t.command_name()).collect();
    assert_eq!(all.len(), count_distinct(names));
}

#[test]
fn no_conflicting_activity_prefixes() {
    let all = Activity::all();
    let prefixes: Vec<&str> = all.iter().map(|a| a.id_prefix()).collect();
    assert_eq!(all.len(), count_distinct(prefixes));
}

#[test]
fn activity_prefixes_alphabetic() {
    for a in Activity::all() {
        assert!(a.id_prefix().chars().all(|c| c.is_ascii_alphabetic()));
    }
}

#[test]
fn max_activities_per_type() {
    for ty in ActivityType::all() {
        assert!(Activity::activities_with_type(ty).len() <= 25);
    }
}

// The annotation for which activity types have a single associated activity
// is manually applied; check that it is correct.
#[test]
fn activity_types_single_annotation_is_correct() {
    assert_eq!(Activity::activities_with_type(ActivityType::Gambit).len(), 1);
    assert_eq!(Activity::activities_with_type(ActivityType::Custom).len(), 1);
}
