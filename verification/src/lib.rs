//! Verified core of the fighter-script layer: action event tables, move
//! registries, generic validation builtins and lifecycle state helpers.

pub mod text;
pub mod action;
pub mod action_index;
pub mod action_events;
pub mod float_bits;
pub mod native;
pub mod builtins;
pub mod move_registry;
pub mod selection;
pub mod motion;
pub mod events;
pub mod host_state;
pub mod move_validation;
pub mod definition;
pub mod motion_links;
pub mod articles;
pub mod async_move;
pub mod identity;
pub mod event_lowering;
pub mod dispatcher;
pub mod callback_routing;
pub mod sidecars;
pub mod fighter_definition;
pub mod fighter_registry;
pub mod host_calls;
pub mod resource_paths;
pub mod fighter_writes;
pub mod lifecycle_calls;
pub mod fighter_calls;
pub mod article_links;
pub mod profile_plan;
pub mod air_operations;
pub mod ground_operations;
pub mod state_validation;
