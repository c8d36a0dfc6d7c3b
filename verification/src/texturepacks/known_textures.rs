//! The 1.8.9 texture names a pack is checked against and packed into
//! the atlas: files `assets/minecraft/textures/blocks/<name>.png` and
//! `assets/minecraft/textures/items/<name>.png` of a resource pack.

use vstd::prelude::*;

verus! {

/// Block texture names, in atlas order.
pub const BLOCK_TEXTURES: [&'static str; 76] = [
    "stone",
    "stone_granite",
    "stone_diorite",
    "stone_andesite",
    "grass_top",
    "grass_side",
    "dirt",
    "cobblestone",
    "planks_oak",
    "planks_spruce",
    "planks_birch",
    "planks_jungle",
    "sapling_oak",
    "bedrock",
    "sand",
    "red_sand",
    "gravel",
    "gold_ore",
    "iron_ore",
    "coal_ore",
    "log_oak",
    "log_oak_top",
    "log_spruce",
    "log_spruce_top",
    "log_birch",
    "log_birch_top",
    "leaves_oak",
    "leaves_spruce",
    "leaves_birch",
    "sponge",
    "glass",
    "lapis_ore",
    "lapis_block",
    "sandstone_top",
    "sandstone_normal",
    "sandstone_bottom",
    "wool_colored_white",
    "gold_block",
    "iron_block",
    "brick",
    "tnt_side",
    "tnt_top",
    "tnt_bottom",
    "bookshelf",
    "cobblestone_mossy",
    "obsidian",
    "torch_on",
    "diamond_ore",
    "diamond_block",
    "crafting_table_top",
    "crafting_table_side",
    "crafting_table_front",
    "furnace_front_off",
    "furnace_side",
    "furnace_top",
    "redstone_ore",
    "ice",
    "snow",
    "clay",
    "pumpkin_side",
    "pumpkin_top",
    "netherrack",
    "glowstone",
    "water_still",
    "lava_still",
    "cactus_side",
    "cactus_top",
    "farmland_wet",
    "farmland_dry",
    "wheat_stage_7",
    "reeds",
    "stonebrick",
    "mycelium_top",
    "mycelium_side",
    "emerald_ore",
    "quartz_block_side",
];

/// Item texture names, in atlas order.
pub const ITEM_TEXTURES: [&'static str; 52] = [
    "apple",
    "arrow",
    "bed",
    "beef_cooked",
    "beef_raw",
    "bone",
    "book_normal",
    "bow_standby",
    "bowl",
    "bread",
    "bucket_empty",
    "bucket_water",
    "bucket_lava",
    "carrot",
    "clay_ball",
    "coal",
    "compass",
    "cookie",
    "diamond",
    "diamond_axe",
    "diamond_pickaxe",
    "diamond_shovel",
    "diamond_sword",
    "egg",
    "emerald",
    "feather",
    "flint",
    "flint_and_steel",
    "gold_ingot",
    "gunpowder",
    "iron_axe",
    "iron_ingot",
    "iron_pickaxe",
    "iron_shovel",
    "iron_sword",
    "leather",
    "paper",
    "potato",
    "redstone_dust",
    "snowball",
    "stick",
    "stone_axe",
    "stone_pickaxe",
    "stone_shovel",
    "stone_sword",
    "string",
    "sugar",
    "wheat",
    "wood_axe",
    "wood_pickaxe",
    "wood_shovel",
    "wood_sword",
];

} // verus!
