//! The recipes, and the actions that craft by them.

use vstd::prelude::*;
use crate::game_state::{GameState, GameStateView};
use crate::inventory::{with_added, with_removed};
use crate::messages::{crafted_message, crafted_text, not_enough_message, not_enough_text};
use crate::types::Item;

verus! {

/// What a recipe is: the item it makes, and what making it takes.
pub struct RecipeView {
    pub result: Item,
    pub ingredients: Seq<(Item, u32)>,
}

/// A recipe: the item it makes, and what making it takes.
pub struct CraftingRecipe {
    pub result: Item,
    pub ingredients: Vec<(Item, u32)>,
}

impl View for CraftingRecipe {
    type V = RecipeView;

    open spec fn view(&self) -> RecipeView {
        RecipeView { result: self.result, ingredients: self.ingredients@ }
    }
}

/// The recipes of `s` as what they are, in the order of `s`.
pub open spec fn recipe_views(s: Seq<CraftingRecipe>) -> Seq<RecipeView> {
    Seq::new(s.len(), |i: int| s[i]@)
}

/// The table of recipes: a furnace from five stone, a belt from one iron
/// plate, an arm from one copper plate, a chest from one iron plate, a drill
/// from five iron ore.
pub open spec fn recipe_table() -> Seq<RecipeView> {
    seq![
        RecipeView { result: Item::Furnace, ingredients: seq![(Item::Stone, 5u32)] },
        RecipeView { result: Item::Belt, ingredients: seq![(Item::IronPlate, 1u32)] },
        RecipeView { result: Item::Arm, ingredients: seq![(Item::CopperPlate, 1u32)] },
        RecipeView { result: Item::Chest, ingredients: seq![(Item::IronPlate, 1u32)] },
        RecipeView { result: Item::Drill, ingredients: seq![(Item::IronOre, 5u32)] },
    ]
}

/// What the item `result` is made of, and how many of it; none for an item
/// that has no recipe.
pub open spec fn ingredient_of(result: Item) -> Option<(Item, nat)> {
    match result {
        Item::Furnace => Some((Item::Stone, 5nat)),
        Item::Belt => Some((Item::IronPlate, 1nat)),
        Item::Arm => Some((Item::CopperPlate, 1nat)),
        Item::Chest => Some((Item::IronPlate, 1nat)),
        Item::Drill => Some((Item::IronOre, 5nat)),
        _ => None,
    }
}

/// Every recipe of the table makes its item from one kind of ingredient,
/// the one that `ingredient_of` names.
pub proof fn lemma_recipe_table()
    ensures
        recipe_table().len() == 5,
        forall|i: int|
            0 <= i < 5 ==> {
                let r = #[trigger] recipe_table()[i];
                &&& r.ingredients.len() == 1
                &&& ingredient_of(r.result) == Some((r.ingredients[0].0, r.ingredients[0].1 as nat))
            },
{
}

/// The state after an attempt to craft `result`. Where the player holds
/// enough of the ingredient it is spent and one `result` is gained; where
/// not, nothing changes but the console, which names the shortfall.
#[verifier::opaque]
pub open spec fn crafted(g: GameStateView, result: Item) -> GameStateView {
    match ingredient_of(result) {
        Some((item, need)) => {
            let held = g.player.inventory[item];
            if held < need {
                g.logged(not_enough_text(need, item, held))
            } else {
                g.with_inventory(
                    with_added(with_removed(g.player.inventory, item, need), result, 1),
                ).validated().logged(crafted_text(result))
            }
        },
        None => g,
    }
}

pub fn get_crafting_recipes() -> (recipes: Vec<CraftingRecipe>)
    ensures
        recipe_views(recipes@) == recipe_table(),
{
    let mut recipes: Vec<CraftingRecipe> = Vec::new();
    recipes.push(CraftingRecipe { result: Item::Furnace, ingredients: vec![(Item::Stone, 5u32)] });
    recipes.push(CraftingRecipe { result: Item::Belt, ingredients: vec![(Item::IronPlate, 1u32)] });
    recipes.push(CraftingRecipe { result: Item::Arm, ingredients: vec![(Item::CopperPlate, 1u32)] });
    recipes.push(CraftingRecipe { result: Item::Chest, ingredients: vec![(Item::IronPlate, 1u32)] });
    recipes.push(CraftingRecipe { result: Item::Drill, ingredients: vec![(Item::IronOre, 5u32)] });
    proof {
        let got = recipe_views(recipes@);
        let want = recipe_table();
        assert(got.len() == want.len());
        assert forall|i: int| 0 <= i < got.len() implies got[i] == want[i] by {
            assert(got[i].ingredients =~= want[i].ingredients);
        }
        assert(got =~= want);
    }
    recipes
}

/// Crafts by the recipe at `index` of the table.
fn craft(game_state: &mut GameState, index: usize)
    requires
        index < 5,
        crafted(old(game_state)@, recipe_table()[index as int].result).fits(),
    ensures
        final(game_state)@ == crafted(old(game_state)@, recipe_table()[index as int].result),
{
    proof {
        reveal(crafted);
    }
    proof {
        lemma_recipe_table();
        game_state.lemma_view();
    }
    let recipes = get_crafting_recipes();
    assert(recipes@[index as int]@ == recipe_table()[index as int]);
    let result = recipes[index].result;
    let (item, need): (Item, u32) = recipes[index].ingredients[0];
    let held: u32 = game_state.player().inventory().count(item);
    if held < need {
        game_state.add_console_message(not_enough_message(need, item, held));
    } else {
        proof {
            let done = crafted(game_state@, result);
            assert(ingredient_of(result) == Some((item, need as nat)));
            assert(done.player.inventory[result] <= u32::MAX);
        }
        game_state.player_mut().inventory_mut().remove_items(item, need);
        game_state.player_mut().add_to_inventory(result);
        game_state.validate_selection();
        game_state.add_console_message(crafted_message(result));
    }
}

/// Crafts a belt from one iron plate.
pub fn handle_belt_crafting(game_state: &mut GameState)
    requires
        crafted(old(game_state)@, Item::Belt).fits(),
    ensures
        final(game_state)@ == crafted(old(game_state)@, Item::Belt),
{
    craft(game_state, 1);
}

/// Crafts an arm from one copper plate.
pub fn handle_arm_crafting(game_state: &mut GameState)
    requires
        crafted(old(game_state)@, Item::Arm).fits(),
    ensures
        final(game_state)@ == crafted(old(game_state)@, Item::Arm),
{
    craft(game_state, 2);
}

/// Crafts a drill from five iron ore.
pub fn handle_drill_crafting(game_state: &mut GameState)
    requires
        crafted(old(game_state)@, Item::Drill).fits(),
    ensures
        final(game_state)@ == crafted(old(game_state)@, Item::Drill),
{
    craft(game_state, 4);
}

/// Crafts a chest from one iron plate.
pub fn handle_chest_crafting(game_state: &mut GameState)
    requires
        crafted(old(game_state)@, Item::Chest).fits(),
    ensures
        final(game_state)@ == crafted(old(game_state)@, Item::Chest),
{
    craft(game_state, 3);
}

/// Crafts a furnace from five stone.
pub fn handle_crafting(game_state: &mut GameState)
    requires
        crafted(old(game_state)@, Item::Furnace).fits(),
    ensures
        final(game_state)@ == crafted(old(game_state)@, Item::Furnace),
{
    craft(game_state, 0);
}

} // verus!
