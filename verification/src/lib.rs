//! Core of an event-scheduling engine for a group-activity chat bot.
//!
//! The library tracks scheduled group events: identifier allocation,
//! participant rosters, time-driven alert and cleanup actions, and the
//! synchronization of an ordered external view (one message per event)
//! with the changing event collection.

use vstd::prelude::*;

mod activity;
mod command;
mod event;
mod manager;
mod scheduler;
mod store;
mod sync;

pub use activity::Activity;
pub use activity::ActivityType;
pub use command::CommandManager;
pub use command::CommandOption;
pub use command::LfgCreateActivity;
pub use command::OptionType;
pub use event::ChangeView;
pub use event::EditView;
pub use event::Event;
pub use event::EventChange;
pub use event::EventEdit;
pub use event::EventError;
pub use event::EventId;
pub use event::EventMember;
pub use event::EventView;
pub use event::JoinKind;
pub use event::MemberView;
pub use event::MAX_EVENT_TIME;
pub use event::MAX_ROSTER;
pub use manager::EventManager;
pub use manager::RealTimeSource;
pub use manager::TimeSource;
pub use manager::WEEK_SECONDS;
pub use scheduler::EventAction;
pub use scheduler::EventScheduler;
pub use scheduler::EventSchedulerConfig;
pub use scheduler::ScheduledAction;
pub use store::EventStore;
pub use store::MemStore;
pub use store::Store;
pub use sync::ChannelEvents;
pub use sync::ChannelUpdate;
pub use sync::EventFilter;
pub use sync::UpdateView;
pub use sync::apply_one;
pub use sync::apply_updates;
pub use sync::changed_event_set;
pub use sync::derived_ops;
pub use sync::emitted_ops;
pub use sync::event_lt;
pub use sync::lemma_apply_updates_push;
pub use sync::lemma_event_order_total;
pub use sync::lemma_insert_membership;
pub use sync::matches_where_in_sync;
pub use sync::out_of_sync_ops;
pub use sync::position_of_id;
pub use sync::reconcile_ops;
pub use sync::sorted_events;
pub use sync::update_ops_range;
pub use sync::updates_view;
pub use store::advance_idx;
pub use store::collection_changed;
pub use store::event_index;
pub use store::events_view;
pub use store::has_event;
pub use store::lemma_has_event_step;
pub use store::lemma_scan_exhausted;
pub use store::lemma_scan_free_first;
pub use store::lookup_event;
pub use store::scan_free;
pub use store::succ_idx_spec;
pub use store::valid_events;
pub use event::edited_view;
pub use event::event_wf;
pub use event::full_portion_len;
pub use event::has_member_id;
pub use event::in_any_list;
pub use event::joined_view;
pub use event::left_view;
pub use event::lemma_join_exclusive;
pub use event::lemma_leave_after_join;
pub use event::members_view;
pub use event::roster_len;
pub use event::roster_view;
pub use event::without_id;
pub use scheduler::action_lt;
pub use scheduler::alert_action;
pub use scheduler::all_derived_actions;
pub use scheduler::changed_pending;
pub use scheduler::cleanup_action;
pub use scheduler::derived_actions;
pub use scheduler::lemma_derived_action_times;
pub use scheduler::lemma_derived_actions_time_only;
pub use scheduler::pending_ids_exist;
pub use scheduler::pending_unique;
pub use scheduler::sorted_actions;
pub use manager::action_stale;
pub use manager::channel_consistent;
pub use manager::channels_changed_sets;
pub use manager::channels_updated;
pub use manager::created_event_view;
pub use manager::lemma_recurrence_advancement;
pub use manager::next_recurrence;
pub use manager::next_recurrence_spec;
pub use manager::recurrence_view;

verus! {

} // verus!
