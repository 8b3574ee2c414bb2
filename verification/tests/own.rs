use minescript::command::{fmt_mc_ident, Command, ExecuteOption};
use minescript::compiler::{compile, function_text};
use minescript::decimal::{decimal_string, euclidean_algorithm, simplify_fraction, Decimal};
use minescript::digest::hash_hex;
use minescript::convert::{debug_string, stringify_selector};
use minescript::interpreter::item::{recipe, slot_from_digits, slot_number};
use minescript::interpreter::{err_with, hashed_name};
use minescript::nbt::Nbt;
use minescript::token::Token;
use minescript::interpreter::{interpret, test_interpret, Loader, NoImports};
use minescript::lexer::tokenize;
use minescript::parser::parse;
use minescript::repr::{CompiledRepr, Config, InterRepr, VecCmd};
use minescript::strmap::StrMap;
use minescript::syntax::{NbtPathPart, Selector, Syntax};
use minescript::text::replace;
use minescript::versioning::Versioned;

fn config() -> Config {
    Config { namespace: "test".to_string(), dummy_objective: "dummy".to_string(), fixed_point_accuracy: 100 }
}

fn run(src: &str) -> Result<Vec<Command>, String> {
    let tokens = tokenize(&format!("[{}]", src))?;
    let syntax = parse(tokens)?;
    test_interpret(&syntax)
}

fn text(src: &str) -> String {
    run(src).unwrap().iter().map(|c| c.stringify("test")).collect::<Vec<_>>().join("\n")
}

fn build(src: &str, loader: &mut impl Loader) -> Result<CompiledRepr, String> {
    let tokens = tokenize(&format!("[{}]", src))?;
    let syntax = parse(tokens)?;
    let mut inter = interpret(&syntax, "", loader, &config())?;
    compile(&mut inter, "test")
}

struct OneFile;

impl Loader for OneFile {
    fn load(&mut self, _base: &str, name: &str) -> (String, Result<String, String>) {
        if name == "lib.ms" {
            (name.to_string(), Ok("function helper @raw \"say hi\"".to_string()))
        } else {
            (name.to_string(), Err("not found".to_string()))
        }
    }
}

#[test]
fn version_read_after_write() {
    let mut v = Versioned::from(1);
    assert_eq!(v.add_version(16, 2), None);
    assert_eq!(*v.get(16), 2);
    assert_eq!(*v.get(20), 2);
    assert_eq!(*v.get(15), 1);
    assert_eq!(v.add_version(16, 3), Some(2));
    assert_eq!(*v.get(16), 3);
    assert_eq!(*v.base(), 1);
}

#[test]
fn version_below_overrides_is_base() {
    let mut v = Versioned::from("base".to_string());
    v.add_version(10, "ten".to_string());
    v.add_version(20, "twenty".to_string());
    assert_eq!(v.get(3), "base");
    assert_eq!(v.get(15), "ten");
    assert_eq!(v.get(25), "twenty");
}

#[test]
fn versioned_text_appends_per_version() {
    let mut a = Versioned::from("a".to_string());
    a.add_version(16, "A".to_string());
    let mut b = Versioned::from("b".to_string());
    b.add_version(20, "B".to_string());
    a.push_str_v(b);
    assert_eq!(a.base(), "ab");
    assert_eq!(a.get(16), "Ab");
    // every version is this side's text at that version followed by the other's
    assert_eq!(a.get(20), "AB");
    assert_eq!(a.get(17), "Ab");
    assert_eq!(a.get(3), "ab");
}

#[test]
fn execute_without_options_keeps_command() {
    let config = config();
    let mut state = InterRepr::new(&config);
    let cmd = Command::Raw("say hi".to_string());
    let out = Command::execute(&Vec::new(), Versioned::from(vec![cmd]), "unused", &mut state);
    assert_eq!(out.base, Command::Raw("say hi".to_string()));
    assert!(state.functions.is_empty());
}

#[test]
fn execute_telescopes_options() {
    let config = config();
    let mut state = InterRepr::new(&config);
    let inner = Command::Execute {
        options: vec![ExecuteOption::At(Selector::s())],
        cmd: Box::new(Command::Raw("say hi".to_string())),
    };
    let out = Command::execute(&vec![ExecuteOption::As(Selector::a())], Versioned::from(vec![inner]), "h", &mut state);
    assert_eq!(out.base.stringify("test"), "execute as @a at @s run say hi");
}

#[test]
fn execute_many_commands_makes_function() {
    let config = config();
    let mut state = InterRepr::new(&config);
    let cmds: VecCmd = Versioned::from(vec![Command::Raw("a".to_string()), Command::Raw("b".to_string())]);
    let out = Command::execute(&vec![ExecuteOption::As(Selector::a())], cmds, "Group One", &mut state);
    assert_eq!(out.base.stringify("test"), "execute as @a run function test:group_one");
    assert_eq!(state.functions.get("Group One").unwrap().base.len(), 2);
}

#[test]
fn function_text_concatenates_lines() {
    let a = vec![Command::Raw("x".to_string())];
    let b = vec![Command::Raw("y".to_string()), Command::Raw("<NAMESPACE>:z".to_string())];
    let both: Vec<Command> = vec![
        Command::Raw("x".to_string()),
        Command::Raw("y".to_string()),
        Command::Raw("<NAMESPACE>:z".to_string()),
    ];
    let whole = function_text("", &both, "ns");
    assert_eq!(whole, format!("{}{}", function_text("", &a, "ns"), function_text("", &b, "ns")));
    assert_eq!(whole, "\nx\ny\nns:z");
}

#[test]
fn mc_ident_lowers_and_underscores() {
    assert_eq!(fmt_mc_ident("My Magic Item"), "my_magic_item");
    assert_eq!(fmt_mc_ident("already_fine"), "already_fine");
}

#[test]
fn replace_all_occurrences() {
    assert_eq!(replace("a<N>b<N>", "<N>", "ns"), "ansbns");
    assert_eq!(replace("aaa", "aa", "b"), "ba");
    assert_eq!(replace("abc", "", "x"), "abc");
}

#[test]
fn hash_is_a_function_of_the_text() {
    assert_eq!(hash_hex("abc"), hash_hex("abc"));
    assert_ne!(hash_hex("abc"), "abc");
    assert!(hash_hex("abc").chars().all(|c| c.is_ascii_hexdigit()));
}

#[test]
fn slot_names() {
    assert_eq!(slot_number("slot_5"), Ok(5));
    assert_eq!(slot_number("hotbar_3"), Ok(3));
    assert_eq!(slot_number("offhand"), Ok(-106));
    assert_eq!(slot_number("head"), Ok(103));
    assert_eq!(
        slot_number("slot_300"),
        Err("While checking if item is in slot_300: number too large to fit in target type".to_string())
    );
    assert_eq!(slot_number("hotbar_9"), Err("Unexpected slot: `hotbar_9`".to_string()));
}

#[test]
fn decimals_render_like_floats() {
    assert_eq!(decimal_string(Decimal::normalized(2002, 2)), "20.02");
    assert_eq!(decimal_string(Decimal::normalized(100, 2)), "1");
    assert_eq!(decimal_string(Decimal::normalized(-5, 1)), "-0.5");
    assert_eq!(decimal_string(Decimal::from_int(0)), "0");
}

#[test]
fn gcd_and_fractions() {
    assert_eq!(euclidean_algorithm(12, 18), 6);
    assert_eq!(euclidean_algorithm(7, 0), 7);
    assert_eq!(simplify_fraction((144, 89)), (144, 89));
    assert_eq!(simplify_fraction((50, 100)), (1, 2));
}

#[test]
fn integer_operations() {
    assert_eq!(text("x *= 0"), "scoreboard players reset %x dummy");
    assert_eq!(text("x *= 1"), "");
    assert_eq!(text("x -= 3"), "scoreboard players remove %x dummy 3");
    assert_eq!(text("x = 0"), "scoreboard players reset %x dummy");
    assert_eq!(run("x /= 0"), Err("Can't divide by zero".to_string()));
    assert_eq!(
        run("x >< 1"),
        Err("Can't apply `><` (the swap operator) to an integer; did you mean `=`, `>`, or `<`?".to_string())
    );
}

#[test]
fn operation_errors() {
    assert!(run("x += 1.5").unwrap_err().starts_with("Can't apply operation `+=` with a float"));
    assert!(run("@s::health += 1").unwrap_err().starts_with("A selector can only be `::` indexed"));
    assert!(run("@raw 5").unwrap_err().starts_with("`@raw` takes a string or list of strings"));
    assert!(run("@nonsense 5").unwrap_err().starts_with("Unexpected annotation"));
    assert!(run("on nobody @raw \"x\"").unwrap_err().starts_with("Invalid `on` identifier"));
    assert!(run("x").unwrap_err().starts_with("Unexpected item"));
    assert!(run("y := @raw \"x\"; @s::lvl := @raw \"x\"").unwrap_err().starts_with("Can't assign a command result"));
}

#[test]
fn swap_nbt_goes_through_storage() {
    assert_eq!(
        text("@s.Inventory >< @p.Inventory"),
        "data modify storage test:storage % set from entity @s Inventory\n\
         data modify entity @s Inventory set from entity @p Inventory\n\
         data modify entity @p Inventory set from storage test:storage %"
    );
}

#[test]
fn empty_if_produces_nothing() {
    assert_eq!(text("if x = 1 []"), "");
}

#[test]
fn imports_read_through_the_loader() {
    let repr = build("@import \"lib.ms\"", &mut OneFile).unwrap();
    assert_eq!(repr.functions.get("helper").unwrap().base, "\nsay hi");
    assert_eq!(
        build("@import \"missing.ms\"", &mut OneFile).err(),
        Some("Error opening missing.ms: not found".to_string())
    );
    assert!(build("@import \"lib.ms\"", &mut NoImports).is_err());
}

#[test]
fn load_declares_objectives_and_constants() {
    let repr = build("function f x %= 7", &mut NoImports).unwrap();
    assert_eq!(
        repr.functions.get("__load__").unwrap().base,
        "say test, a datapack created with MineScript\nscoreboard objectives add dummy dummy\nscoreboard players set %__const__7 dummy 7"
    );
}

#[test]
fn item_needs_base_name_and_nbt() {
    let err = build("@item { name: \"Thing\" nbt: {a: 1} }", &mut NoImports).err().unwrap();
    assert_eq!(err, "Item must have a specified base item; @item {... base: \"potion\"}");
    let err = build("@item { base: stick nbt: {a: 1} }", &mut NoImports).err().unwrap();
    assert_eq!(err, "Item must have a specified name: @item {... name: \"My Item\"}");
    let err = build("@item { base: stick name: \"Thing\" }", &mut NoImports).err().unwrap();
    assert!(err.starts_with("Item nbt should be an object"));
}

#[test]
fn item_give_function() {
    let repr = build("@item { base: stick name: \"Magic Stick\" nbt: {CustomModelData: 7} }", &mut NoImports).unwrap();
    let give = &repr.functions.get("give/magic_stick").unwrap().base;
    assert_eq!(
        give,
        "give @s minecraft:stick{CustomModelData: 7, display: {Name: \"{\\\"text\\\":\\\"Magic Stick\\\",\\\"italic\\\":\\\"false\\\"}\"}, tag: {_is_minescript: \"Magic Stick\"}}"
    );
}

#[test]
fn nbt_text_and_json() {
    let mut m = StrMap::new();
    m.insert("b".to_string(), minescript::nbt::Nbt::Integer(1));
    m.insert("a".to_string(), minescript::nbt::Nbt::String("x\"y".to_string()));
    let obj = minescript::nbt::Nbt::Object(m);
    assert_eq!(obj.to_text(), "{a: \"x\"y\", b: 1}");
    assert_eq!(obj.to_json(), "{\"a\":\"x\\\"y\",\"b\":1}");
    assert_eq!(minescript::nbt::Nbt::Array(Vec::new()).to_json(), "[]");
    assert_eq!(minescript::nbt::Nbt::Object(StrMap::new()).to_json(), "{}");
}

#[test]
fn coordinate_syntax_errors() {
    let bad = Syntax::Array(vec![Syntax::Integer(1), Syntax::Integer(2)]);
    assert!(minescript::interpreter::block::coordinate_from(&bad).is_err());
}

#[test]
fn debug_text_of_syntax() {
    let mut m = StrMap::new();
    m.insert("b".to_string(), Syntax::Identifier("x".to_string()));
    m.insert("a".to_string(), Syntax::Integer(1));
    let obj = Syntax::Object(m);
    assert_eq!(debug_string(&obj), "{\"a\": 1, \"b\": x}");
    let arr = Syntax::Array(vec![Syntax::Integer(-3), Syntax::String("s".to_string()), Syntax::Unit]);
    assert_eq!(debug_string(&arr), "[-3, \"s\", ()]");
    assert_eq!(debug_string(&Syntax::Range(Some(1), None)), "1..");
    assert_eq!(debug_string(&Syntax::Range(None, Some(4))), "..4");
    let sel = Selector::s().with_property("type".to_string(), Syntax::Identifier("cow".to_string()));
    assert_eq!(debug_string(&Syntax::SelectorColon(sel, "score".to_string())), "@S[\"type=cow\"]:score");
    let op = Syntax::BinaryOp {
        lhs: Box::new(Syntax::Identifier("x".to_string())),
        operation: minescript::syntax::Operation::AddEq,
        rhs: Box::new(Syntax::Integer(2)),
    };
    assert_eq!(debug_string(&op), "x += 2");
    assert_eq!(err_with("Bad `", &Syntax::Integer(5), "`"), "Bad `5`");
    assert_eq!(hashed_name("p_", &obj), format!("p_{}", hash_hex(&debug_string(&obj))));
}

#[test]
fn parse_single_tokens() {
    assert_eq!(parse(vec![Token::Integer(5)]), Ok(Syntax::Integer(5)));
    assert_eq!(parse(vec![Token::Range(Some(1), Some(3))]), Ok(Syntax::Range(Some(1), Some(3))));
    assert!(parse(Vec::new()).is_err());
}

#[test]
fn slot_from_captured_digits() {
    assert_eq!(slot_from_digits("slot_7", Some("7".to_string()), None), Ok(7));
    assert_eq!(slot_from_digits("hotbar_2", None, Some("2".to_string())), Ok(2));
    assert_eq!(slot_from_digits("chest", None, None), Ok(102));
    assert_eq!(slot_from_digits("legs", None, None), Ok(101));
    assert_eq!(slot_from_digits("feet", None, None), Ok(100));
    assert!(slot_from_digits("slot_200", Some("200".to_string()), None).is_err());
    assert_eq!(slot_from_digits("belt", None, None), Err("Unexpected slot: `belt`".to_string()));
}

#[test]
fn recipe_types() {
    let kind = |n: &Nbt| match n {
        Nbt::Object(m) => match m.get("type") {
            Some(Nbt::String(t)) => t.clone(),
            _ => String::new(),
        },
        _ => String::new(),
    };
    let stone = Syntax::Annotation("stonecutter".to_string(), Box::new(Syntax::Identifier("stone".to_string())));
    assert_eq!(kind(&recipe(&stone).unwrap()), "minecraft:stonecutting");
    let smith = Syntax::Annotation(
        "smithing".to_string(),
        Box::new(Syntax::Array(vec![Syntax::Identifier("a".to_string()), Syntax::String("b".to_string())])),
    );
    assert_eq!(kind(&recipe(&smith).unwrap()), "minecraft:smithing");
    let short = Syntax::Annotation("smithing".to_string(), Box::new(Syntax::Array(vec![Syntax::Identifier("a".to_string())])));
    assert!(recipe(&short).is_err());
    let shapeless = Syntax::Annotation(
        "shapeless".to_string(),
        Box::new(Syntax::Array(vec![Syntax::Identifier("a".to_string())])),
    );
    assert_eq!(kind(&recipe(&shapeless).unwrap()), "minecraft:crafting_shapeless");
    let bogus = Syntax::Annotation("bogus".to_string(), Box::new(Syntax::Unit));
    assert_eq!(recipe(&bogus), Err("Unexpected recipe annotation: `bogus`".to_string()));
    let no_pattern = Syntax::Object(StrMap::new());
    assert_eq!(recipe(&no_pattern), Err("Expected pattern for recipe".to_string()));
}

#[test]
fn item_rejects_unknown_properties() {
    let err = build("@item { base: stick name: \"Thing\" nbt: {a: 1} color: red }", &mut NoImports).err().unwrap();
    assert_eq!(err, "Unexpected item property: `color`");
}

#[test]
fn program_defines_its_functions() {
    let tokens = tokenize("[function f { x = 1 } function g {} y = 2]").unwrap();
    let syntax = parse(tokens).unwrap();
    let state = interpret(&syntax, "", &mut NoImports, &config()).unwrap();
    assert!(state.functions.contains_key("f"));
    assert!(state.functions.contains_key("g"));
    assert!(!state.functions.contains_key("y"));
}

#[test]
fn raycast_generates_named_functions() {
    let out = text("@raycast { max: 10 hit: @raw \"say hit\" }");
    assert!(out.starts_with("execute summon marker run function test:__internal__/"));
    assert_eq!(run("@raycast { max: 10 }"), Err("Raycast requires a hit/callback function".to_string()));
    assert_eq!(
        run("@raycast { hit: @raw \"say\" speed: 2 }"),
        Err("Invalid key for Raycast annotation: `speed`".to_string())
    );
}

#[test]
fn unknown_annotation_is_an_error() {
    assert_eq!(run("@teleport 5"), Err("Unexpected annotation `teleport`".to_string()));
    assert_eq!(text("@raw \"say hi\""), "say hi");
    assert_eq!(text("@function \"tick_all\""), "function test:tick_all");
}

#[test]
fn for_loop_sets_counter_then_calls_loop() {
    let out = text("for i in 3..5 { @raw \"say hi\" }");
    let lines: Vec<&str> = out.lines().collect();
    assert_eq!(lines.len(), 2);
    assert_eq!(lines[0], "scoreboard players set %i dummy 3");
    assert!(lines[1].starts_with("function test:__internal__/"));
    assert!(run("for i in 5 { @raw \"say hi\" }").is_err());
}

#[test]
fn effect_and_sound_objects() {
    assert_eq!(text("@effect { effect: speed level: 2 duration: 30 }"), "effect give @s speed 30 2");
    assert_eq!(run("@effect { effect: speed strength: 2 }"), Err("Unexpected potion property: `strength`".to_string()));
    assert_eq!(run("@sound { volume: 2 }"), Err("Sound annotation must specify the sound to play".to_string()));
    assert!(text("@sound { sound: \"block.note_block.harp\" }").starts_with("playsound block.note_block.harp master"));
}

#[test]
fn compiled_load_starts_with_setup() {
    let repr = build("x = 1 function f { y = 2 }", &mut NoImports).unwrap();
    let load = &repr.functions.get("__load__").unwrap().base;
    assert!(load.starts_with("say test, a datapack created with MineScript\nscoreboard objectives add dummy dummy"));
    assert!(repr.functions.contains_key("f"));
}

#[test]
fn nbt_path_continuations() {
    let tokens = vec![
        Token::Identifier("data".to_string()),
        Token::Dot,
        Token::Identifier("Inventory".to_string()),
        Token::LSquare,
        Token::Integer(3),
        Token::RSquare,
        Token::Dot,
        Token::Identifier("tag".to_string()),
        Token::Comma,
    ];
    let (path, end) = minescript::parser::parse_nbt_path(&tokens, 1).unwrap();
    assert_eq!(
        path,
        vec![NbtPathPart::Ident("Inventory".to_string()), NbtPathPart::Index(3), NbtPathPart::Ident("tag".to_string())]
    );
    assert_eq!(end, 8);
    let bad = vec![Token::LSquare, Token::Integer(-1), Token::RSquare];
    assert!(minescript::parser::parse_nbt_path(&bad, 0).is_err());
    let storage = minescript::parser::parse_identifier(&tokens, 1, "data".to_string()).unwrap();
    assert_eq!(storage.1, 8);
    assert!(matches!(storage.0, Syntax::NbtStorage(_)));
}

#[test]
fn selector_arguments_as_text() {
    let mut nbt = StrMap::new();
    nbt.insert("Tags".to_string(), Syntax::Array(vec![Syntax::String("a".to_string())]));
    let sel = Selector::e()
        .with_property("type".to_string(), Syntax::Identifier("cow".to_string()))
        .with_property("distance".to_string(), Syntax::Range(None, Some(5)))
        .with_property("nbt".to_string(), Syntax::Object(nbt));
    let s = stringify_selector(&sel).unwrap();
    assert_eq!(s.to_text(), "@e[distance=..5, nbt={Tags: [\"a\"]}, type=cow]");
    let bad = Selector::e().with_property("x".to_string(), Syntax::Unit);
    assert!(stringify_selector(&bad).is_err());
}

#[test]
fn selector_block_names_its_closure() {
    let out = text("as @a { @raw \"say a\" @raw \"say b\" }");
    assert!(out.starts_with("execute as @a run function test:closure/as_"));
    assert_eq!(text("as @a { @raw \"say a\" }"), "execute as @a run say a");
}

#[test]
fn if_compares_two_scores() {
    assert_eq!(text("if x = y @raw \"hi\""), "execute if score %x dummy = y dummy run hi");
    assert_eq!(text("if x != y @raw \"hi\""), "execute unless score %x dummy = y dummy run hi");
    assert_eq!(text("unless x < y @raw \"hi\""), "execute unless score %x dummy < y dummy run hi");
    assert!(run("if x += y @raw \"hi\"").is_err());
}

#[test]
fn tellraw_components() {
    assert_eq!(text("tellraw @a \"hello\""), "tellraw @a [{\"text\":\"hello\"}]");
    assert_eq!(text("tellraw @a x"), "tellraw @a [{\"score\":{\"name\":\"%x\",\"objective\":\"dummy\"}}]");
    assert_eq!(
        text("tellraw @a (\"hi\", [bold, \"there\"])"),
        "tellraw @a [{\"text\":\"hi\"},{\"bold\":true,\"text\":\"there\"}]"
    );
}

#[test]
fn recipes_get_craft_functions() {
    let src = "@item { base: cookie name: \"Goodberry\" nbt: {customModelData: 7} recipe: @shapeless [sweet_berries, lapis_lazuli] }";
    let repr = build(src, &mut NoImports).unwrap();
    assert!(repr.functions.contains_key("give/goodberry"));
    assert!(repr.recipes.contains_key("goodberry"));
    assert!(repr.advancements.contains_key("craft/goodberry"));
    let craft = &repr.functions.get("craft/goodberry").unwrap().base;
    assert!(craft.starts_with("clear @s knowledge_book 1\nadvancement revoke @s only test:craft/goodberry\ngive @s minecraft:cookie"));
}

#[test]
fn empty_statement_list_produces_nothing() {
    let cmds = test_interpret(&Syntax::Array(vec![])).unwrap();
    assert!(cmds.is_empty());
}

#[test]
fn blocks_with_selectors_succeed_on_valid_input() {
    assert!(text("@sound { sound: \"block.note_block.harp\" target: @a }").contains(" @a"));
    assert!(run("damage @p { amount: 3 by: @s }").is_ok());
    assert!(run("damage @p \"x\"").is_err());
    assert!(run("tp @s @p").is_ok());
    assert!(run("tp @s 5").is_err());
    assert!(run("@raycast { callback: \"hit\" }").is_ok());
    assert!(run("@raycast { max: \"far\" callback: \"hit\" }").is_err());
}

#[test]
fn appended_function_is_appended_version_by_version() {
    let mut repr = CompiledRepr::new(StrMap::new());
    repr.insert_fn("f", Versioned::from("a".to_string()));
    let mut more = Versioned::from("x".to_string());
    more.add_version(1, "y".to_string());
    more.add_version(2, "z".to_string());
    repr.insert_fn("f", more);
    let f = repr.functions.get("f").unwrap();
    assert_eq!(f.base(), "ax");
    assert_eq!(f.get(1), "ay");
    assert_eq!(f.get(2), "az");
}

#[test]
fn item_keeps_tag_entries_and_records_use() {
    let config = config();
    let mut state = InterRepr::new(&config);
    let tokens = tokenize("{ base: cookie name: \"Goodberry\" nbt: { tag: { CustomModelData: 7 } } on_use: \"eat\" }").unwrap();
    let src = parse(tokens).unwrap();
    let it = minescript::interpreter::item::item(&src, &mut state, "", &mut NoImports, &config, 4).unwrap();
    assert_eq!(it.name, "Goodberry");
    assert_eq!(it.base, "cookie");
    assert_eq!(it.nbt.to_json(), "{\"tag\":{\"CustomModelData\":7,\"_is_minescript\":\"Goodberry\"}}");
    assert_eq!(it.on_use.base, vec![Command::Function("eat".to_string())]);
    assert_eq!(state.objectives.get("use_cookie").unwrap(), "minecraft.used:minecraft.cookie");
    assert_eq!(state.objectives.get("dummy").unwrap(), "dummy");
}

#[test]
fn parser_handles_minus_and_binary_operations() {
    assert_eq!(parse(vec![Token::Tack, Token::Integer(20)]), Ok(Syntax::Integer(-20)));
    let sum = parse(vec![Token::Integer(1), Token::Plus, Token::Integer(2)]).unwrap();
    assert_eq!(debug_string(&sum), debug_string(&Syntax::BinaryOp {
        lhs: Box::new(Syntax::Integer(1)),
        operation: minescript::syntax::Operation::Add,
        rhs: Box::new(Syntax::Integer(2)),
    }));
}

#[test]
fn parser_climbs_precedence_levels() {
    let bin = |l: Syntax, operation: minescript::syntax::Operation, r: Syntax| Syntax::BinaryOp { lhs: Box::new(l), operation, rhs: Box::new(r) };
    let tree = parse(vec![Token::Integer(1), Token::Star, Token::Integer(2), Token::Plus, Token::Integer(3)]).unwrap();
    let expected = bin(Syntax::Integer(1), minescript::syntax::Operation::Mul, bin(Syntax::Integer(2), minescript::syntax::Operation::Add, Syntax::Integer(3)));
    assert_eq!(debug_string(&tree), debug_string(&expected));
    let tree = parse(vec![Token::Integer(7), Token::Tack, Token::Integer(2), Token::Tack, Token::Integer(1)]).unwrap();
    let expected = bin(bin(Syntax::Integer(7), minescript::syntax::Operation::Sub, Syntax::Integer(2)), minescript::syntax::Operation::Sub, Syntax::Integer(1));
    assert_eq!(debug_string(&tree), debug_string(&expected));
    let tree = parse(vec![Token::Identifier("x".into()), Token::Equal, Token::Identifier("y".into()), Token::Star, Token::Integer(3)]).unwrap();
    let x_is_y = bin(Syntax::Identifier("x".into()), minescript::syntax::Operation::Equal, Syntax::Identifier("y".into()));
    let expected = bin(x_is_y, minescript::syntax::Operation::Mul, Syntax::Integer(3));
    assert_eq!(debug_string(&tree), debug_string(&expected));
    let tree = parse(vec![Token::Integer(1), Token::Star, Token::Tack, Token::Integer(2), Token::Plus, Token::Integer(3)]).unwrap();
    let minus_two_plus_three = bin(Syntax::Integer(-2), minescript::syntax::Operation::Add, Syntax::Integer(3));
    let expected = bin(Syntax::Integer(1), minescript::syntax::Operation::Mul, minus_two_plus_three);
    assert_eq!(debug_string(&tree), debug_string(&expected));
    let tree = parse(vec![
        Token::LSquare,
        Token::Integer(1),
        Token::Plus,
        Token::Integer(2),
        Token::Comma,
        Token::Integer(3),
        Token::RSquare,
    ]).unwrap();
    let one_plus_two = bin(Syntax::Integer(1), minescript::syntax::Operation::Add, Syntax::Integer(2));
    assert_eq!(debug_string(&tree), debug_string(&Syntax::Array(vec![one_plus_two, Syntax::Integer(3)])));
}

#[test]
fn lexer_error_messages() {
    assert_eq!(tokenize("$x"), Err("Unexpected character: `$`".to_string()));
    assert_eq!(tokenize("\"abc\\"), Err("Unexpected end of file".to_string()));
}

#[test]
fn float_factors_beyond_old_limit_work() {
    assert!(run("x *= 40000.5").is_ok());
    assert_eq!(run("x += 0.5"), Err("Can't apply operation `+=` with a float; floats can only be used in multiplication and division.".to_string()));
    assert_eq!(run("x /= 0"), Err("Can't divide by zero".to_string()));
}

#[test]
fn closest_fraction_within_bound() {
    assert_eq!(minescript::decimal::farey_approximation(1618, 1000, 100), (144, 89));
    assert_eq!(minescript::decimal::farey_approximation(-1, 2, 10), (1, -2));
}

#[test]
fn while_and_until_enter_with_a_test() {
    let out = text("while x < 10 { @raw \"a\" }");
    assert!(out.starts_with("execute unless score %x dummy matches 10.. run function test:__internal__/"), "{}", out);
    let out = text("until x = 3 { @raw \"a\" }");
    assert!(out.starts_with("execute unless score %x dummy matches 3 run function test:__internal__/"), "{}", out);
}

#[test]
fn subcommand_blocks_wrap_their_body() {
    assert_eq!(text("on owner @raw \"say hi\""), "execute on owner run say hi");
    assert_eq!(text("summon pig @raw \"say hi\""), "execute summon pig run say hi");
    assert_eq!(text("positioned (~ ~1 ~) @raw \"say hi\""), "execute positioned ~ ~1 ~ run say hi");
    assert_eq!(text("as at @a tp @s (~ ~10 ~)"), "execute as @a at @s run tp @s ~ ~10 ~");
}

#[test]
fn switch_first_sets_its_score() {
    let out = text("switch 4 [ case 4 { @raw \"a\" } ]");
    let first = out.lines().next().unwrap().to_string();
    assert!(first.starts_with("scoreboard players set %__internal__/switch_"), "{}", out);
    assert!(first.ends_with(" dummy 4"), "{}", out);
}

#[test]
fn statement_lists_keep_every_command_in_order() {
    assert_eq!(text("x = 1\n@raw \"say a\"\nx += 2"), "scoreboard players set %x dummy 1\nsay a\nscoreboard players add %x dummy 2");
    assert_eq!(text("x *= 2"), "scoreboard players operation %x dummy += %x dummy");
}

#[test]
fn programs_without_imports_interpret() {
    let tokens = tokenize("[x = 1, @function \"a/b\", function f { y = 2 }]").unwrap();
    let syntax = parse(tokens).unwrap();
    let state = interpret(&syntax, "", &mut NoImports, &config()).unwrap();
    assert!(state.functions.get("f").is_some());
}

#[test]
fn bare_state_compiles_to_its_load_function() {
    let config = config();
    let mut state = InterRepr::new(&config);
    state.insert_constant(10);
    let c = compile(&mut state, "test").unwrap();
    assert_eq!(c.functions.len(), 1);
    let load = c.functions.get("__load__").unwrap();
    assert_eq!(
        load.base,
        "say test, a datapack created with MineScript\nscoreboard objectives add dummy dummy\nscoreboard players set %__const__a dummy 10"
    );
    assert_eq!(c.advancements.len(), 0);
    assert_eq!(c.recipes.len(), 0);
}

#[test]
fn imported_text_is_read_as_a_list() {
    let parsed = minescript::interpreter::annotations::read_source(&"lib.ms".to_string(), "1 + 2, 3").unwrap();
    assert!(matches!(parsed, Syntax::Array(ref a) if a.len() == 2));
    let err = minescript::interpreter::annotations::read_source(&"lib.ms".to_string(), "$").unwrap_err();
    assert!(err.starts_with("Error parsing lib.ms: "), "{}", err);
}

#[test]
fn loop_functions_begin_with_their_body() {
    let c = build("function load { while x <= 10 x += 1 }", &mut NoImports).unwrap();
    let body_fn = (0..c.functions.len())
        .map(|i| c.functions.key_at(i).clone())
        .find(|k| k.starts_with("__internal__/"))
        .unwrap();
    let text = c.functions.get(&body_fn).unwrap().base.clone();
    assert!(text.trim_start().starts_with("scoreboard players add %x dummy 1\n"), "{}", text);
}

#[test]
fn recipe_fields() {
    let smith = Syntax::Annotation(
        "smithing".to_string(),
        Box::new(Syntax::Array(vec![Syntax::Identifier("iron_sword".to_string()), Syntax::String("diamond".to_string())])),
    );
    assert_eq!(
        recipe(&smith).unwrap().to_json(),
        "{\"addition\":{\"item\":\"diamond\"},\"base\":{\"item\":\"iron_sword\"},\"template\":{},\"type\":\"minecraft:smithing\"}"
    );
    let stone = Syntax::Annotation("stonecutting".to_string(), Box::new(Syntax::Identifier("stone".to_string())));
    assert_eq!(
        recipe(&stone).unwrap().to_json(),
        "{\"count\":1,\"ingredient\":{\"item\":\"stone\"},\"result\":\"minecraft:knowledge_book\",\"type\":\"minecraft:stonecutting\"}"
    );
    let shapeless = Syntax::Annotation(
        "shapeless".to_string(),
        Box::new(Syntax::Array(vec![
            Syntax::Identifier("a".to_string()),
            Syntax::Array(vec![Syntax::Identifier("b".to_string()), Syntax::String("c".to_string())]),
        ])),
    );
    assert_eq!(
        recipe(&shapeless).unwrap().to_json(),
        "{\"ingredients\":[{\"item\":\"a\"},[{\"item\":\"b\"},{\"item\":\"c\"}]],\"result\":{\"count\":1,\"item\":\"minecraft:knowledge_book\"},\"type\":\"minecraft:crafting_shapeless\"}"
    );
    let bad = Syntax::Annotation(
        "shapeless".to_string(),
        Box::new(Syntax::Array(vec![Syntax::Array(vec![Syntax::Integer(3)])])),
    );
    assert!(recipe(&bad).is_err());
}

#[test]
fn item_slot_checks_and_event_lists() {
    let config = config();
    let mut state = InterRepr::new(&config);
    let tokens = tokenize(
        "{ base: cookie name: berry nbt: { a: 1 } on_consume: [ @raw \"say a\" @raw \"say b\" ] while_slot: { head: @raw \"say h\" hotbar_3: @raw \"say 3\" } }",
    )
    .unwrap();
    let src = parse(tokens).unwrap();
    let it = minescript::interpreter::item::item(&src, &mut state, "", &mut NoImports, &config, 4).unwrap();
    assert_eq!(it.on_consume.base, vec![Command::Raw("say a".to_string()), Command::Raw("say b".to_string())]);
    assert_eq!(it.slot_checks.len(), 2);
    assert_eq!(it.slot_checks[0].0, 103);
    assert_eq!(it.slot_checks[0].1.base, vec![Command::Raw("say h".to_string())]);
    assert_eq!(it.slot_checks[1].0, 3);
    assert_eq!(it.slot_checks[1].1.base, vec![Command::Raw("say 3".to_string())]);
}

#[test]
fn readme_item_succeeds() {
    let src = "@item {\n    base: cookie\n    name: Goodberry\n    nbt: {customModelData:10007}\n    on_consume: [\n        @effect {\n            effect: saturation\n            level: 10\n            duration: 1\n        }\n    ]\n    recipe: {\n        pattern: [\n            \" l \"\n            \"lbl\"\n            \" l \"\n        ]\n        key: {\n            b: sweet_berries\n            l: lapis_lazuli\n        }\n    }\n}";
    let tokens = tokenize(&format!("[{}]", src)).unwrap();
    let syntax = parse(tokens).unwrap();
    let state = interpret(&syntax, "", &mut NoImports, &config()).unwrap();
    assert_eq!(state.items.len(), 1);
    assert_eq!(state.items[0].on_consume.base.len(), 1);
    assert!(matches!(state.items[0].on_consume.base[0], Command::EffectGive { .. }));
}

#[test]
fn parser_block_keywords() {
    let block_of = |src: &str| match parse(tokenize(src).unwrap()).unwrap() {
        Syntax::Block(bt, _, _) => Some(bt),
        _ => None,
    };
    assert_eq!(block_of("if x = 1 {}"), Some(minescript::syntax::BlockType::If));
    assert_eq!(block_of("unless x = 1 {}"), Some(minescript::syntax::BlockType::Unless));
    assert_eq!(block_of("as at @a {}"), Some(minescript::syntax::BlockType::AsAt));
    assert_eq!(block_of("as @a {}"), Some(minescript::syntax::BlockType::As));
    assert_eq!(block_of("do while x = 1 {}"), Some(minescript::syntax::BlockType::DoWhile));
    assert_eq!(block_of("do until x = 1 {}"), Some(minescript::syntax::BlockType::DoUntil));
    assert!(parse(tokenize("do x {}").unwrap()).is_err());
}

#[test]
fn lexer_number_then_dot() {
    assert_eq!(tokenize("1.x"), Err("Expected number after `.`".to_string()));
}

#[test]
fn string_nbt_json_is_quoted() {
    assert_eq!(Nbt::String("abc def".to_string()).to_json(), "\"abc def\"");
}

#[test]
fn effect_and_decimal_statements_succeed() {
    assert_eq!(text("@effect speed"), "effect give @s speed infinite 1");
    assert_eq!(text("x /= 0.5"), "scoreboard players operation %x dummy *= %__const__2 dummy\nscoreboard players operation %x dummy /= %__const__1 dummy");
}

#[test]
fn operation_on_entity_score() {
    let config = config();
    let mut state = InterRepr::new(&config);
    let loc = minescript::syntax::DataLocation::SelectorColon(Selector::s(), "score".to_string());
    let v = minescript::interpreter::operation::operation(
        &loc,
        minescript::syntax::Operation::AddEq,
        &Syntax::Integer(3),
        &mut state,
        &config,
    )
    .unwrap();
    let lines: Vec<String> = v.base.iter().map(|c| c.stringify("test")).collect();
    assert_eq!(lines, vec!["scoreboard players add @s score 3".to_string()]);
}

#[test]
fn if_on_entity_score() {
    let config = config();
    let mut state = InterRepr::new(&config);
    let loc = minescript::syntax::DataLocation::SelectorColon(Selector::s(), "score".to_string());
    let content: VecCmd = Versioned::from(vec![Command::Raw("say hi".to_string())]);
    let v = minescript::interpreter::block::interpret_if(
        false,
        &loc,
        minescript::syntax::Operation::BangEq,
        &Syntax::Integer(2),
        content,
        "__internal__/if_x",
        &mut state,
        &config,
    )
    .unwrap();
    let lines: Vec<String> = v.base.iter().map(|c| c.stringify("test")).collect();
    assert_eq!(lines, vec!["execute unless score @s score matches 2 run say hi".to_string()]);
}
