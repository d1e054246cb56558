//! Game logic for a grid-based first-person dungeon crawler: a software
//! pixel canvas for procedural textures, text layout and number formatting
//! for the HUD popups, inventory cursor and drag rules, ramp and layer
//! geometry, trading, save slots and their timestamps, quest ordering, the
//! saved level states, the reactions to a step, the level-transition state
//! machine and the modal overlays.

pub mod canvas;
pub mod strings;
pub mod text;
pub mod inventory;
pub mod ramps;
pub mod transition;
pub mod trading;
pub mod overlay;
pub mod numfmt;
pub mod save_load;
pub mod calendar;
pub mod tooltip;
pub mod zones;
pub mod layers;
pub mod movement;
pub mod fixtures;
pub mod sign;
pub mod textures;
pub mod projectiles;
pub mod quests;
pub mod snapshots;
