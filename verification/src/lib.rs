//! Reading Quake 3 BSP level files and turning them into a navigable level.
pub mod helpers;
pub mod texture_flags;
pub mod directory_header;
pub mod entity;
pub mod raw_bsp;
pub mod raw_bsp_parsers;
pub mod bsp;
pub mod sorted_set;
pub mod lazy;
pub mod cache;
pub mod drawing;
pub mod texture;
