use lfg_core::Activity;
use lfg_core::EventEdit;
use lfg_core::EventManager;
use lfg_core::EventMember;
use lfg_core::EventSchedulerConfig;
use lfg_core::JoinKind;
use lfg_core::MemStore;

const NOW: i64 = 1_000_000;

fn member(id: u64) -> EventMember {
    EventMember {
        id,
        name: String::from("user"),
    }
}

fn test_manager() -> EventManager<MemStore> {
    EventManager::new(
        Vec::new(),
        MemStore::new(),
        EventSchedulerConfig {
            alert: 600,
            cleanup: 1800,
        },
        &Vec::new(),
        false,
        NOW,
    )
    .expect("empty collection is valid")
}

// Every successful mutation saves exactly one snapshot, and the snapshot is
// the post-mutation collection.
#[test]
fn every_mutation_saves_one_snapshot() {
    let mut manager = test_manager();
    assert_eq!(manager.persistence().save_count(), 0);

    let (event, _) = manager
        .create_event(member(1), Activity::VaultOfGlass, 2_000_000, String::new(), NOW)
        .unwrap();
    let id = event.id();
    assert_eq!(manager.persistence().save_count(), 1);
    assert_eq!(manager.persistence().last_saved().as_ref().unwrap(), manager.events());

    manager.join(id, member(2), JoinKind::Confirmed, NOW).unwrap();
    assert_eq!(manager.persistence().save_count(), 2);
    assert_eq!(manager.persistence().last_saved().as_ref().unwrap(), manager.events());

    manager
        .edit_event(id, EventEdit::GroupSize(4), NOW)
        .unwrap();
    assert_eq!(manager.persistence().save_count(), 3);
    assert_eq!(manager.persistence().last_saved().as_ref().unwrap(), manager.events());

    manager.delete_event(id, NOW).unwrap();
    assert_eq!(manager.persistence().save_count(), 4);
    assert_eq!(manager.persistence().last_saved().as_ref().unwrap(), manager.events());
}

// A failed mutation saves nothing.
#[test]
fn failed_mutations_save_nothing() {
    let mut manager = test_manager();
    let (event, _) = manager
        .create_event(member(1), Activity::VaultOfGlass, 2_000_000, String::new(), NOW)
        .unwrap();
    let saves = manager.persistence().save_count();

    assert!(manager.join(event.id(), member(1), JoinKind::Maybe, NOW).is_err());
    assert!(manager.leave(event.id(), 99, NOW).is_err());
    assert_eq!(manager.persistence().save_count(), saves);
}
