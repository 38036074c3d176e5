//! Key bindings: which action or custom command a key press triggers.

use vstd::prelude::*;
use crate::configuration::{Configuration, CustomCommand, EnvVar};
use crate::text::{
    chars_of, lemma_replace_absent, lowered, ascii_lower, is_ascii_text, occurs_at, push_char, replace_all, replace_chars,
    split_chars, split_on, str_to_lowercase, string_from_chars, trim, trim_chars, views,
    is_white_space, leading_ws, trailing_ws, lemma_split_no_sep, lemma_split_append, lemma_ascii_split, lemma_ascii_trim,
    lemma_ascii_lower_idempotent,
};

verus! {

/// The configuration name of the `toggle_fullscreen` action.
pub const TOGGLE_FULLSCREEN_NAME: &'static str = "toggle_fullscreen";
/// The configuration name of the `escape` action.
pub const ESCAPE_NAME: &'static str = "escape";
/// The configuration name of the `img_next` action.
pub const IMG_NEXT_NAME: &'static str = "img_next";
/// The configuration name of the `img_prev` action.
pub const IMG_PREV_NAME: &'static str = "img_prev";
/// The configuration name of the `img_orig` action.
pub const IMG_ORIG_NAME: &'static str = "img_orig";
/// The configuration name of the `img_fit` action.
pub const IMG_FIT_NAME: &'static str = "img_fit";
/// The configuration name of the `img_fit_best` action.
pub const IMG_FIT_BEST_NAME: &'static str = "img_fit_best";
/// The configuration name of the `img_del` action.
pub const IMG_DEL_NAME: &'static str = "img_del";
/// The configuration name of the `pan` action.
pub const PAN_NAME: &'static str = "pan";
/// The configuration name of the `play_anim` action.
pub const PLAY_ANIM_NAME: &'static str = "play_anim";
/// The configuration name of the `play_present` action.
pub const PLAY_PRESENT_NAME: &'static str = "play_present";
/// The configuration name of the `play_present_rnd` action.
pub const PLAY_PRESENT_RND_NAME: &'static str = "play_present_rnd";

/// The modifier keys held during a key press.
#[derive(Debug, Clone, Copy, PartialEq, Eq, Structural)]
pub struct Modifiers {
    pub alt: bool,
    pub ctrl: bool,
    pub logo: bool,
}

/// The texts held by a list of strings.
pub open spec fn string_views(v: Seq<String>) -> Seq<Seq<char>> {
    v.map_values(|s: String| s@)
}

/// The input name of a typed character: `"space"` for a space, `"add"` for `+`,
/// the character itself otherwise.
pub open spec fn input_key_text(ch: char) -> Seq<char> {
    if ch == ' ' {
        "space"@
    } else if ch == '+' {
        "add"@
    } else {
        seq![ch]
    }
}

/// The input name of a typed character.
pub fn char_to_input_key(ch: char) -> (r: String)
    ensures
        r@ == input_key_text(ch),
{
    if ch == ' ' {
        "space".to_owned()
    } else if ch == '+' {
        "add".to_owned()
    } else {
        let mut input_key = String::new();
        push_char(&mut input_key, ch);
        input_key
    }
}

/// The `+`-separated parts of a binding such as `"ctrl + alt+U"`, each trimmed and
/// lowercased.
pub open spec fn binding_parts(key: Seq<char>) -> Seq<Seq<char>> {
    split_on(key, '+').map_values(|p: Seq<char>| lowered(trim(p)))
}

/// One of `mods` is `name`.
pub open spec fn has_modifier(mods: Seq<Seq<char>>, name: Seq<char>) -> bool {
    exists|i: int| 0 <= i < mods.len() && mods[i] == name
}

/// The binding `key` names the key `input_key` with exactly the modifiers `m`
/// (among alt, ctrl and logo): its last part is the key, the parts before it are
/// the modifiers, and names other than `alt`, `ctrl`, `logo` among them are ignored.
pub open spec fn binding_triggered(key: Seq<char>, input_key: Seq<char>, m: Modifiers) -> bool {
    let parts = binding_parts(key);
    let mods = parts.drop_last();
    &&& parts.len() > 0
    &&& parts.last() == input_key
    &&& has_modifier(mods, "alt"@) == m.alt
    &&& has_modifier(mods, "ctrl"@) == m.ctrl
    &&& has_modifier(mods, "logo"@) == m.logo
}

/// One of the bindings `keys` is triggered.
pub open spec fn keys_trigger(keys: Seq<Seq<char>>, input_key: Seq<char>, m: Modifiers) -> bool {
    exists|i: int| 0 <= i < keys.len() && binding_triggered(keys[i], input_key, m)
}

/// The lowercased, trimmed parts of one binding.
fn binding_parts_of(key: &String) -> (r: Vec<String>)
    ensures
        string_views(r@) == binding_parts(key@),
{
    let cs = chars_of(key.as_str());
    let pieces = split_chars(&cs, '+');
    let ghost pv = views(pieces@);
    let mut r: Vec<String> = Vec::new();
    let mut i: usize = 0;
    while i < pieces.len()
        invariant
            i <= pieces.len(),
            pv == views(pieces@),
            pv == split_on(key@, '+'),
            string_views(r@) == pv.take(i as int).map_values(|p: Seq<char>| lowered(trim(p))),
        decreases pieces.len() - i,
    {
        assert(pv[i as int] == pieces@[i as int]@);
        let trimmed = trim_chars(pieces[i].as_slice());
        let t = string_from_chars(trimmed.as_slice());
        let lower = str_to_lowercase(t.as_str());
        let ghost before = string_views(r@);
        r.push(lower);
        assert(string_views(r@) =~= before.push(lowered(trim(pv[i as int]))));
        assert(string_views(r@) =~= pv.take(i + 1).map_values(|p: Seq<char>| lowered(trim(p))));
        i = i + 1;
    }
    assert(pv.take(pieces.len() as int) =~= pv);
    r
}

/// Whether `part` is among the modifiers `mods[..count]`.
fn contains_part(mods: &Vec<String>, count: usize, name: &String) -> (r: bool)
    requires
        count <= mods.len(),
    ensures
        r == has_modifier(string_views(mods@).take(count as int), name@),
{
    let ghost m = string_views(mods@).take(count as int);
    let mut i: usize = 0;
    while i < count
        invariant
            i <= count <= mods.len(),
            m == string_views(mods@).take(count as int),
            forall|j: int| 0 <= j < i ==> m[j] != name@,
        decreases count - i,
    {
        if mods[i] == *name {
            assert(m[i as int] == name@);
            return true;
        }
        i = i + 1;
    }
    false
}

/// Whether the single binding `key` is triggered.
fn binding_is_triggered(key: &String, input_key: &String, modifiers: Modifiers) -> (r: bool)
    ensures
        r == binding_triggered(key@, input_key@, modifiers),
{
    let parts = binding_parts_of(key);
    let ghost pv = string_views(parts@);
    if parts.len() == 0 {
        return false;
    }
    let last = parts.len() - 1;
    if parts[last] != *input_key {
        return false;
    }
    assert(pv.drop_last() =~= string_views(parts@).take(last as int));
    let alt = "alt".to_owned();
    let ctrl = "ctrl".to_owned();
    let logo = "logo".to_owned();
    let has_alt = contains_part(&parts, last, &alt);
    let has_ctrl = contains_part(&parts, last, &ctrl);
    let has_logo = contains_part(&parts, last, &logo);
    has_alt == modifiers.alt && has_ctrl == modifiers.ctrl && has_logo == modifiers.logo
}

/// Whether any of the bindings `keys` is triggered by the key `input_key` pressed with
/// the modifiers `modifiers`.
pub fn keys_triggered(keys: &[String], input_key: &str, modifiers: Modifiers) -> (r: bool)
    ensures
        r == keys_trigger(string_views(keys@), input_key@, modifiers),
{
    let input = input_key.to_owned();
    let ghost kv = string_views(keys@);
    let mut i: usize = 0;
    while i < keys.len()
        invariant
            i <= keys.len(),
            kv == string_views(keys@),
            input@ == input_key@,
            forall|j: int| 0 <= j < i ==> !binding_triggered(kv[j], input_key@, modifiers),
        decreases keys.len() - i,
    {
        if binding_is_triggered(&keys[i], &input, modifiers) {
            assert(binding_triggered(kv[i as int], input_key@, modifiers));
            return true;
        }
        i = i + 1;
    }
    false
}

/// The inputs bound to each action when the configuration does not say otherwise.
pub open spec fn default_binding(action: Seq<char>) -> Option<Seq<Seq<char>>> {
    if action == "toggle_fullscreen"@ {
        Some(seq!["F11"@, "Return"@])
    } else if action == "escape"@ {
        Some(seq!["Escape"@])
    } else if action == "img_next"@ {
        Some(seq!["D"@, "Right"@, "PageDown"@])
    } else if action == "img_prev"@ {
        Some(seq!["A"@, "Left"@, "PageUp"@])
    } else if action == "img_orig"@ {
        Some(seq!["Q"@, "1"@])
    } else if action == "img_fit"@ {
        Some(seq!["F"@])
    } else if action == "img_fit_best"@ {
        Some(seq!["E"@])
    } else if action == "img_del"@ {
        Some(seq!["Delete"@])
    } else if action == "pan"@ {
        Some(seq!["Space"@])
    } else if action == "play_anim"@ {
        Some(seq!["Alt+A"@, "Alt+V"@])
    } else if action == "play_present"@ {
        Some(seq!["P"@])
    } else if action == "play_present_rnd"@ {
        Some(seq!["Alt+P"@])
    } else {
        None
    }
}

fn strings1(a: &str) -> (r: Vec<String>)
    ensures
        string_views(r@) == seq![a@],
{
    let mut r: Vec<String> = Vec::new();
    r.push(a.to_owned());
    assert(string_views(r@) =~= seq![a@]);
    r
}

fn strings2(a: &str, b: &str) -> (r: Vec<String>)
    ensures
        string_views(r@) == seq![a@, b@],
{
    let mut r: Vec<String> = Vec::new();
    r.push(a.to_owned());
    r.push(b.to_owned());
    assert(string_views(r@) =~= seq![a@, b@]);
    r
}

fn strings3(a: &str, b: &str, c: &str) -> (r: Vec<String>)
    ensures
        string_views(r@) == seq![a@, b@, c@],
{
    let mut r: Vec<String> = Vec::new();
    r.push(a.to_owned());
    r.push(b.to_owned());
    r.push(c.to_owned());
    assert(string_views(r@) =~= seq![a@, b@, c@]);
    r
}

/// The default inputs of an action, `None` for a name that is no action.
pub fn default_keys(action: &str) -> (r: Option<Vec<String>>)
    ensures
        match default_binding(action@) {
            Some(keys) => r matches Some(v) && string_views(v@) == keys,
            None => r is None,
        },
{
    let a = action.to_owned();
    if a == TOGGLE_FULLSCREEN_NAME.to_owned() {
        Some(strings2("F11", "Return"))
    } else if a == ESCAPE_NAME.to_owned() {
        Some(strings1("Escape"))
    } else if a == IMG_NEXT_NAME.to_owned() {
        Some(strings3("D", "Right", "PageDown"))
    } else if a == IMG_PREV_NAME.to_owned() {
        Some(strings3("A", "Left", "PageUp"))
    } else if a == IMG_ORIG_NAME.to_owned() {
        Some(strings2("Q", "1"))
    } else if a == IMG_FIT_NAME.to_owned() {
        Some(strings1("F"))
    } else if a == IMG_FIT_BEST_NAME.to_owned() {
        Some(strings1("E"))
    } else if a == IMG_DEL_NAME.to_owned() {
        Some(strings1("Delete"))
    } else if a == PAN_NAME.to_owned() {
        Some(strings1("Space"))
    } else if a == PLAY_ANIM_NAME.to_owned() {
        Some(strings2("Alt+A", "Alt+V"))
    } else if a == PLAY_PRESENT_NAME.to_owned() {
        Some(strings1("P"))
    } else if a == PLAY_PRESENT_RND_NAME.to_owned() {
        Some(strings1("Alt+P"))
    } else {
        None
    }
}

/// The bindings of a configuration as texts.
pub open spec fn binding_views(b: Seq<(String, Vec<String>)>) -> Seq<(Seq<char>, Seq<Seq<char>>)> {
    b.map_values(|e: (String, Vec<String>)| (e.0@, string_views(e.1@)))
}

/// The inputs that the entries `b` give the action `name`: those of its first entry.
pub open spec fn lookup_binding(b: Seq<(Seq<char>, Seq<Seq<char>>)>, name: Seq<char>) -> Option<
    Seq<Seq<char>>,
>
    decreases b.len(),
{
    if b.len() == 0 {
        None
    } else if b[0].0 == name {
        Some(b[0].1)
    } else {
        lookup_binding(b.drop_first(), name)
    }
}

/// The inputs that the configuration file gives the action `name`, if it names it.
pub open spec fn configured_binding(config: Configuration, name: Seq<char>) -> Option<
    Seq<Seq<char>>,
> {
    match config.bindings {
        Some(b) => lookup_binding(binding_views(b@), name),
        None => None,
    }
}

/// The inputs in effect for the action `name`: those of the configuration file, or
/// the defaults when the file does not bind the action.
pub open spec fn effective_binding(config: Configuration, name: Seq<char>) -> Seq<Seq<char>> {
    match configured_binding(config, name) {
        Some(keys) => keys,
        None => default_binding(name).unwrap(),
    }
}

/// The configured entry for `name`, as an index into `bindings`.
fn find_binding(bindings: &Vec<(String, Vec<String>)>, name: &String) -> (r: Option<usize>)
    ensures
        match lookup_binding(binding_views(bindings@), name@) {
            Some(keys) => r matches Some(i) && i < bindings.len() && string_views(
                bindings@[i as int].1@,
            ) == keys,
            None => r is None,
        },
{
    let ghost bv = binding_views(bindings@);
    let mut i: usize = 0;
    assert(bv.skip(0) =~= bv);
    while i < bindings.len()
        invariant
            i <= bindings.len(),
            bv == binding_views(bindings@),
            lookup_binding(bv, name@) == lookup_binding(bv.skip(i as int), name@),
        decreases bindings.len() - i,
    {
        assert(bv.skip(i as int)[0] == bv[i as int]);
        if bindings[i].0 == *name {
            return Some(i);
        }
        assert(bv.skip(i as int).drop_first() =~= bv.skip(i + 1));
        i = i + 1;
    }
    assert(bv.skip(i as int) =~= Seq::<(Seq<char>, Seq<Seq<char>>)>::empty());
    None
}

/// Whether the action `action_name` is triggered by the key `input_key` pressed with
/// `modifiers`, by the configured bindings of the action or else its defaults.
pub fn action_triggered(
    config: &Configuration,
    action_name: &str,
    input_key: &str,
    modifiers: Modifiers,
) -> (r: bool)
    requires
        configured_binding(*config, action_name@) is Some || default_binding(action_name@) is Some,
    ensures
        r == keys_trigger(effective_binding(*config, action_name@), input_key@, modifiers),
{
    let name = action_name.to_owned();
    if let Some(bindings) = &config.bindings {
        if let Some(i) = find_binding(bindings, &name) {
            return keys_triggered(bindings[i].1.as_slice(), input_key, modifiers);
        }
    }
    match default_keys(action_name) {
        Some(keys) => keys_triggered(keys.as_slice(), input_key, modifiers),
        None => false,
    }
}

/// `${img}` and `${folder}` in a command argument replaced by the image path and
/// its folder path.
pub open spec fn substituted(arg: Seq<char>, img: Seq<char>, folder: Seq<char>) -> Seq<char> {
    replace_all(replace_all(arg, "${img}"@, img), "${folder}"@, folder)
}

/// Replaces the `${img}` and `${folder}` parameters of a command argument.
pub fn substitute_command_parameters(arg: &str, img_path: &str, folder_path: &str) -> (r: String)
    ensures
        r@ == substituted(arg@, img_path@, folder_path@),
{
    let s = chars_of(arg);
    let img_var = chars_of("${img}");
    let folder_var = chars_of("${folder}");
    proof {
        reveal_strlit("${img}");
        reveal_strlit("${folder}");
    }
    let img = chars_of(img_path);
    let folder = chars_of(folder_path);
    let once = replace_chars(s.as_slice(), img_var.as_slice(), img.as_slice());
    let twice = replace_chars(once.as_slice(), folder_var.as_slice(), folder.as_slice());
    string_from_chars(twice.as_slice())
}

/// A custom command ready to run: the program, its arguments and its environment.
#[derive(Debug, PartialEq, Eq, Clone)]
pub struct CommandInvocation {
    pub program: String,
    pub args: Vec<String>,
    pub envs: Vec<(String, String)>,
}

/// A command invocation as texts.
pub open spec fn invocation_view(c: CommandInvocation) -> (Seq<char>, Seq<Seq<char>>, Seq<(Seq<char>, Seq<char>)>) {
    (c.program@, string_views(c.args@), c.envs@.map_values(|e: (String, String)| (e.0@, e.1@)))
}

/// The environment of a command as texts.
pub open spec fn env_views(envs: Option<Vec<EnvVar>>) -> Seq<(Seq<char>, Seq<char>)> {
    match envs {
        Some(v) => v@.map_values(|e: EnvVar| (e.name@, e.value@)),
        None => Seq::empty(),
    }
}

/// The arguments of a command with its parameters substituted.
pub open spec fn args_view(args: Option<Vec<String>>, img: Seq<char>, folder: Seq<char>) -> Seq<Seq<char>> {
    match args {
        Some(v) => string_views(v@).map_values(|a: Seq<char>| substituted(a, img, folder)),
        None => Seq::empty(),
    }
}

/// The commands among `cmds` that the key press triggers, in order, as they are run.
pub open spec fn planned_commands(
    cmds: Seq<CustomCommand>,
    input_key: Seq<char>,
    m: Modifiers,
    img: Seq<char>,
    folder: Seq<char>,
) -> Seq<(Seq<char>, Seq<Seq<char>>, Seq<(Seq<char>, Seq<char>)>)>
    decreases cmds.len(),
{
    if cmds.len() == 0 {
        Seq::empty()
    } else {
        let prev = planned_commands(cmds.drop_last(), input_key, m, img, folder);
        let c = cmds.last();
        if keys_trigger(string_views(c.input@), input_key, m) {
            prev.push((c.program@, args_view(c.args, img, folder), env_views(c.envs)))
        } else {
            prev
        }
    }
}

/// The custom commands of the configuration triggered by the input key and modifier
/// set, with `${img}` and `${folder}` substituted in their arguments, in the order in
/// which they are to be run.
pub fn triggered_commands(
    config: &Configuration,
    input_key: &str,
    modifiers: Modifiers,
    img_path: &str,
    folder_path: &str,
) -> (r: Vec<CommandInvocation>)
    ensures
        r@.map_values(|c: CommandInvocation| invocation_view(c)) == (match config.commands {
            Some(cmds) => planned_commands(cmds@, input_key@, modifiers, img_path@, folder_path@),
            None => Seq::empty(),
        }),
{
    let mut r: Vec<CommandInvocation> = Vec::new();
    if let Some(commands) = &config.commands {
        let mut i: usize = 0;
        while i < commands.len()
            invariant
                i <= commands.len(),
                r@.map_values(|c: CommandInvocation| invocation_view(c)) == planned_commands(
                    commands@.take(i as int),
                    input_key@,
                    modifiers,
                    img_path@,
                    folder_path@,
                ),
            decreases commands.len() - i,
        {
            let command = &commands[i];
            assert(commands@.take(i + 1).drop_last() =~= commands@.take(i as int));
            assert(commands@.take(i + 1).last() == commands@[i as int]);
            if keys_triggered(command.input.as_slice(), input_key, modifiers) {
                let mut args: Vec<String> = Vec::new();
                if let Some(a) = &command.args {
                    let mut j: usize = 0;
                    while j < a.len()
                        invariant
                            j <= a.len(),
                            string_views(args@) == string_views(a@).take(j as int).map_values(
                                |x: Seq<char>| substituted(x, img_path@, folder_path@),
                            ),
                        decreases a.len() - j,
                    {
                        assert(string_views(a@)[j as int] == a@[j as int]@);
                        let s = substitute_command_parameters(a[j].as_str(), img_path, folder_path);
                        let ghost before = string_views(args@);
                        args.push(s);
                        assert(string_views(args@) =~= before.push(s@));
                        assert(string_views(args@) =~= string_views(a@).take(j + 1).map_values(
                            |x: Seq<char>| substituted(x, img_path@, folder_path@),
                        ));
                        j = j + 1;
                    }
                    assert(string_views(a@).take(a.len() as int) =~= string_views(a@));
                } else {
                    assert(string_views(args@) =~= Seq::<Seq<char>>::empty());
                }
                let mut envs: Vec<(String, String)> = Vec::new();
                if let Some(e) = &command.envs {
                    let mut j: usize = 0;
                    while j < e.len()
                        invariant
                            j <= e.len(),
                            envs@.map_values(|x: (String, String)| (x.0@, x.1@)) == e@.take(
                                j as int,
                            ).map_values(|x: EnvVar| (x.name@, x.value@)),
                        decreases e.len() - j,
                    {
                        let ghost before = envs@.map_values(|x: (String, String)| (x.0@, x.1@));
                        let pair = (e[j].name.clone(), e[j].value.clone());
                        envs.push(pair);
                        assert(envs@.map_values(|x: (String, String)| (x.0@, x.1@)) =~= before.push(
                            (e@[j as int].name@, e@[j as int].value@),
                        ));
                        assert(envs@.map_values(|x: (String, String)| (x.0@, x.1@)) =~= e@.take(
                            j + 1,
                        ).map_values(|x: EnvVar| (x.name@, x.value@)));
                        j = j + 1;
                    }
                    assert(e@.take(e.len() as int) =~= e@);
                } else {
                    assert(envs@.map_values(|x: (String, String)| (x.0@, x.1@)) =~= Seq::<
                        (Seq<char>, Seq<char>),
                    >::empty());
                }
                let ghost before = r@.map_values(|c: CommandInvocation| invocation_view(c));
                let inv = CommandInvocation { program: command.program.clone(), args, envs };
                r.push(inv);
                assert(r@.map_values(|c: CommandInvocation| invocation_view(c)) =~= before.push(
                    invocation_view(inv),
                ));
            }
            i = i + 1;
        }
        assert(commands@.take(commands.len() as int) =~= commands@);
    } else {
        assert(r@.map_values(|c: CommandInvocation| invocation_view(c)) =~= Seq::<
            (Seq<char>, Seq<Seq<char>>, Seq<(Seq<char>, Seq<char>)>),
        >::empty());
    }
    r
}

/// An action bound to an empty list in the configuration is never triggered, whatever
/// its defaults: an empty list turns the action off.
pub proof fn lemma_empty_binding_never_triggers(
    config: Configuration,
    name: Seq<char>,
    input_key: Seq<char>,
    m: Modifiers,
)
    requires
        configured_binding(config, name) == Some(Seq::<Seq<char>>::empty()),
    ensures
        !keys_trigger(effective_binding(config, name), input_key, m),
{
}

/// A binding written as the documentation says (`space` for a space, `add` for `+`,
/// any other typeable character as itself) triggers when that character is typed with
/// no modifier held. For a character other than space and `+`, this holds when it is
/// not white space and is its own lowercase (every ASCII character but `A` to `Z` is).
pub proof fn lemma_documented_binding_triggers(ch: char)
    requires
        ch == ' ' || ch == '+' || (lowered(seq![ch]) == seq![ch] && !is_white_space(ch)),
    ensures
        keys_trigger(
            seq![input_key_text(ch)],
            input_key_text(ch),
            Modifiers { alt: false, ctrl: false, logo: false },
        ),
{
    let key = input_key_text(ch);
    reveal_strlit("space");
    reveal_strlit("add");
    if ch == ' ' || ch == '+' {
        assert(is_ascii_text(key));
        assert(ascii_lower(key) =~= key);
    }
    assert(lowered(key) == key);
    assert(!key.contains('+'));
    lemma_split_no_sep(key, '+');
    assert(key.len() > 0 && !is_white_space(key[0]) && !is_white_space(key.last()));
    assert(leading_ws(key) == 0);
    assert(key.skip(0) =~= key);
    assert(trailing_ws(key) == 0);
    assert(key.take(key.len() as int) =~= key);
    assert(trim(key) == key);
    let parts = binding_parts(key);
    assert(parts =~= seq![key]);
    assert(parts.drop_last() =~= Seq::<Seq<char>>::empty());
    assert(binding_triggered(key, key, Modifiers { alt: false, ctrl: false, logo: false }));
    assert(seq![key][0] == key);
}

/// Key names are not case sensitive: an ASCII binding triggers exactly when its
/// lowercase form does, and so does a list of them.
pub proof fn lemma_bindings_ignore_case(keys: Seq<Seq<char>>, input_key: Seq<char>, m: Modifiers)
    requires
        forall|i: int| 0 <= i < keys.len() ==> is_ascii_text(#[trigger] keys[i]),
    ensures
        keys_trigger(keys.map_values(|k: Seq<char>| ascii_lower(k)), input_key, m) == keys_trigger(
            keys,
            input_key,
            m,
        ),
        forall|i: int|
            0 <= i < keys.len() ==> binding_triggered(ascii_lower(#[trigger] keys[i]), input_key, m)
                == binding_triggered(keys[i], input_key, m),
{
    assert forall|i: int| 0 <= i < keys.len() implies binding_triggered(
        ascii_lower(#[trigger] keys[i]),
        input_key,
        m,
    ) == binding_triggered(keys[i], input_key, m) by {
        let key = keys[i];
        lemma_ascii_split(key);
        let pk = split_on(key, '+');
        assert forall|k: int| 0 <= k < pk.len() implies #[trigger] binding_parts(ascii_lower(key))[k]
            == binding_parts(key)[k] by {
            lemma_ascii_trim(pk[k]);
            lemma_ascii_lower_idempotent(trim(pk[k]));
        }
        assert(binding_parts(ascii_lower(key)) =~= binding_parts(key));
    }
    let lk = keys.map_values(|k: Seq<char>| ascii_lower(k));
    if keys_trigger(keys, input_key, m) {
        let i = choose|i: int| 0 <= i < keys.len() && binding_triggered(keys[i], input_key, m);
        assert(lk[i] == ascii_lower(keys[i]));
    }
    if keys_trigger(lk, input_key, m) {
        let i = choose|i: int| 0 <= i < lk.len() && binding_triggered(lk[i], input_key, m);
        assert(lk[i] == ascii_lower(keys[i]));
    }
}

/// A command argument without `${img}` and `${folder}` is passed on unchanged.
pub proof fn lemma_plain_argument_unchanged(arg: Seq<char>, img: Seq<char>, folder: Seq<char>)
    requires
        forall|i: int| !#[trigger] occurs_at(arg, "${img}"@, i),
        forall|i: int| !#[trigger] occurs_at(arg, "${folder}"@, i),
    ensures
        substituted(arg, img, folder) == arg,
{
    lemma_replace_absent(arg, "${img}"@, img);
    lemma_replace_absent(arg, "${folder}"@, folder);
}

/// A key name of one or more ASCII characters, without `+` and without white space at
/// its ends.
pub open spec fn plain_key(key: Seq<char>) -> bool {
    &&& key.len() > 0
    &&& is_ascii_text(key)
    &&& !key.contains('+')
    &&& !is_white_space(key[0])
    &&& !is_white_space(key.last())
}

/// A plain key name is a single part, its own trimmed form, lowercased the ASCII way.
proof fn lemma_plain_key_parts(key: Seq<char>)
    requires
        plain_key(key),
    ensures
        split_on(key, '+') == seq![key],
        trim(key) == key,
        lowered(trim(key)) == ascii_lower(key),
        binding_parts(key) == seq![ascii_lower(key)],
{
    lemma_split_no_sep(key, '+');
    assert(leading_ws(key) == 0);
    assert(key.skip(0) =~= key);
    assert(trailing_ws(key) == 0);
    assert(key.take(key.len() as int) =~= key);
    lemma_ascii_lower_idempotent(key);
    assert(binding_parts(key) =~= seq![ascii_lower(key)]);
}

/// One modifier in a list of one is that modifier.
proof fn lemma_one_modifier(x: Seq<char>, name: Seq<char>)
    ensures
        has_modifier(seq![x], name) == (x == name),
{
    assert(seq![x][0] == x);
}

/// A binding of a plain key name is triggered exactly by that name in lowercase,
/// pressed with no modifier.
proof fn lemma_plain_binding(key: Seq<char>, input_key: Seq<char>, m: Modifiers)
    requires
        plain_key(key),
    ensures
        binding_triggered(key, input_key, m) == (input_key == ascii_lower(key) && !m.alt && !m.ctrl
            && !m.logo),
{
    lemma_plain_key_parts(key);
    assert(binding_parts(key).drop_last() =~= Seq::<Seq<char>>::empty());
}

/// A binding `md+key` of two plain names is triggered exactly by `key` in lowercase,
/// with each of alt, ctrl and logo held just when `md` names it.
proof fn lemma_modified_binding(md: Seq<char>, key: Seq<char>, input_key: Seq<char>, m: Modifiers)
    requires
        plain_key(md),
        plain_key(key),
    ensures
        binding_triggered(md + seq!['+'] + key, input_key, m) == (input_key == ascii_lower(key) && m.alt
            == (ascii_lower(md) == "alt"@) && m.ctrl == (ascii_lower(md) == "ctrl"@) && m.logo == (
        ascii_lower(md) == "logo"@)),
{
    lemma_split_append(md, key, '+');
    lemma_plain_key_parts(md);
    lemma_plain_key_parts(key);
    let whole = md + seq!['+'] + key;
    assert(split_on(whole, '+') =~= seq![md, key]);
    let parts = binding_parts(whole);
    assert(parts =~= seq![ascii_lower(md), ascii_lower(key)]);
    assert(parts.drop_last() =~= seq![ascii_lower(md)]);
    lemma_one_modifier(ascii_lower(md), "alt"@);
    lemma_one_modifier(ascii_lower(md), "ctrl"@);
    lemma_one_modifier(ascii_lower(md), "logo"@);
}

/// Bindings of one, two or three plain key names are triggered exactly by one of the
/// names, in lowercase, pressed with no modifier.
proof fn lemma_plain_bindings(keys: Seq<Seq<char>>, input_key: Seq<char>, m: Modifiers)
    requires
        1 <= keys.len() <= 3,
        forall|i: int| 0 <= i < keys.len() ==> plain_key(#[trigger] keys[i]),
    ensures
        keys_trigger(keys, input_key, m) == (!m.alt && !m.ctrl && !m.logo && exists|i: int|
            0 <= i < keys.len() && input_key == ascii_lower(#[trigger] keys[i])),
{
    assert forall|i: int| 0 <= i < keys.len() implies #[trigger] binding_triggered(keys[i], input_key, m)
        == (input_key == ascii_lower(keys[i]) && !m.alt && !m.ctrl && !m.logo) by {
        lemma_plain_binding(keys[i], input_key, m);
    }
    if !m.alt && !m.ctrl && !m.logo && exists|i: int|
        0 <= i < keys.len() && input_key == ascii_lower(#[trigger] keys[i]) {
        let i = choose|i: int| 0 <= i < keys.len() && input_key == ascii_lower(#[trigger] keys[i]);
        assert(binding_triggered(keys[i], input_key, m));
    }
}

/// One plain key name: see `lemma_plain_bindings`.
proof fn lemma_plain_bindings1(a: Seq<char>, input_key: Seq<char>, m: Modifiers)
    requires
        plain_key(a),
    ensures
        keys_trigger(seq![a], input_key, m) == (!m.alt && !m.ctrl && !m.logo && input_key == ascii_lower(a)),
{
    let keys = seq![a];
    assert(keys[0] == a);
    lemma_plain_bindings(keys, input_key, m);
    assert(ascii_lower(keys[0]) == ascii_lower(a));
}

/// Two plain key names: see `lemma_plain_bindings`.
proof fn lemma_plain_bindings2(a: Seq<char>, b: Seq<char>, input_key: Seq<char>, m: Modifiers)
    requires
        plain_key(a),
        plain_key(b),
    ensures
        keys_trigger(seq![a, b], input_key, m) == (!m.alt && !m.ctrl && !m.logo && (input_key
            == ascii_lower(a) || input_key == ascii_lower(b))),
{
    let keys = seq![a, b];
    assert(keys[0] == a && keys[1] == b);
    lemma_plain_bindings(keys, input_key, m);
    assert(ascii_lower(keys[0]) == ascii_lower(a) && ascii_lower(keys[1]) == ascii_lower(b));
}

/// Three plain key names: see `lemma_plain_bindings`.
proof fn lemma_plain_bindings3(a: Seq<char>, b: Seq<char>, c: Seq<char>, input_key: Seq<char>, m: Modifiers)
    requires
        plain_key(a),
        plain_key(b),
        plain_key(c),
    ensures
        keys_trigger(seq![a, b, c], input_key, m) == (!m.alt && !m.ctrl && !m.logo && (input_key
            == ascii_lower(a) || input_key == ascii_lower(b) || input_key == ascii_lower(c))),
{
    let keys = seq![a, b, c];
    assert(keys[0] == a && keys[1] == b && keys[2] == c);
    lemma_plain_bindings(keys, input_key, m);
    assert(ascii_lower(keys[0]) == ascii_lower(a) && ascii_lower(keys[1]) == ascii_lower(b)
        && ascii_lower(keys[2]) == ascii_lower(c));
}

/// The defaults of `toggle_fullscreen`, `escape`, `img_next` and `img_prev`.
proof fn lemma_defaults_navigation(k: Seq<char>, m: Modifiers)
    ensures
        keys_trigger(default_binding("toggle_fullscreen"@).unwrap(), k, m) == (!m.alt && !m.ctrl
            && !m.logo && (k == "f11"@ || k == "return"@)),
        keys_trigger(default_binding("escape"@).unwrap(), k, m) == (!m.alt && !m.ctrl && !m.logo
            && k == "escape"@),
        keys_trigger(default_binding("img_next"@).unwrap(), k, m) == (!m.alt && !m.ctrl && !m.logo
            && (k == "d"@ || k == "right"@ || k == "pagedown"@)),
        keys_trigger(default_binding("img_prev"@).unwrap(), k, m) == (!m.alt && !m.ctrl && !m.logo
            && (k == "a"@ || k == "left"@ || k == "pageup"@)),
{
    lemma_action_names_differ();
    reveal_strlit("escape");
    reveal_strlit("F11");
    reveal_strlit("f11");
    reveal_strlit("Return");
    reveal_strlit("return");
    reveal_strlit("Escape");
    reveal_strlit("D");
    reveal_strlit("d");
    reveal_strlit("Right");
    reveal_strlit("right");
    reveal_strlit("PageDown");
    reveal_strlit("pagedown");
    reveal_strlit("A");
    reveal_strlit("a");
    reveal_strlit("Left");
    reveal_strlit("left");
    reveal_strlit("PageUp");
    reveal_strlit("pageup");
    assert(default_binding("toggle_fullscreen"@) == Some(seq!["F11"@, "Return"@]));
    assert(default_binding("escape"@) == Some(seq!["Escape"@]));
    assert(default_binding("img_next"@) == Some(seq!["D"@, "Right"@, "PageDown"@]));
    assert(default_binding("img_prev"@) == Some(seq!["A"@, "Left"@, "PageUp"@]));
    lemma_plain_bindings2("F11"@, "Return"@, k, m);
    lemma_plain_bindings1("Escape"@, k, m);
    lemma_plain_bindings3("D"@, "Right"@, "PageDown"@, k, m);
    lemma_plain_bindings3("A"@, "Left"@, "PageUp"@, k, m);
    assert(ascii_lower("F11"@) =~= "f11"@);
    assert(ascii_lower("Return"@) =~= "return"@);
    assert(ascii_lower("Escape"@) =~= "escape"@);
    assert(ascii_lower("D"@) =~= "d"@);
    assert(ascii_lower("Right"@) =~= "right"@);
    assert(ascii_lower("PageDown"@) =~= "pagedown"@);
    assert(ascii_lower("A"@) =~= "a"@);
    assert(ascii_lower("Left"@) =~= "left"@);
    assert(ascii_lower("PageUp"@) =~= "pageup"@);
}

/// The names of the actions differ from one another.
proof fn lemma_action_names_differ()
    ensures
        "toggle_fullscreen"@.len() == 17,
        "escape"@.len() == 6,
        "img_next"@.len() == 8,
        "img_prev"@.len() == 8,
        "img_orig"@.len() == 8,
        "img_fit"@.len() == 7,
        "img_fit_best"@.len() == 12,
        "img_del"@.len() == 7,
        "pan"@.len() == 3,
        "play_anim"@.len() == 9,
        "play_present"@.len() == 12,
        "play_present_rnd"@.len() == 16,
        "img_prev"@ != "img_next"@,
        "img_orig"@ != "img_next"@,
        "img_orig"@ != "img_prev"@,
        "img_del"@ != "img_fit"@,
        "play_present"@ != "img_fit_best"@,
{
    reveal_strlit("toggle_fullscreen");
    reveal_strlit("escape");
    reveal_strlit("img_next");
    reveal_strlit("img_prev");
    reveal_strlit("img_orig");
    reveal_strlit("img_fit");
    reveal_strlit("img_fit_best");
    reveal_strlit("img_del");
    reveal_strlit("pan");
    reveal_strlit("play_anim");
    reveal_strlit("play_present");
    reveal_strlit("play_present_rnd");
    assert("img_prev"@[4] != "img_next"@[4]);
    assert("img_orig"@[4] != "img_next"@[4]);
    assert("img_orig"@[4] != "img_prev"@[4]);
    assert("img_del"@[4] != "img_fit"@[4]);
    assert("play_present"@[0] != "img_fit_best"@[0]);
}

/// The defaults of `img_orig`, `img_fit`, `img_fit_best`, `img_del` and `pan`.
proof fn lemma_defaults_view(k: Seq<char>, m: Modifiers)
    ensures
        keys_trigger(default_binding("img_orig"@).unwrap(), k, m) == (!m.alt && !m.ctrl && !m.logo
            && (k == "q"@ || k == "1"@)),
        keys_trigger(default_binding("img_fit"@).unwrap(), k, m) == (!m.alt && !m.ctrl && !m.logo
            && k == "f"@),
        keys_trigger(default_binding("img_fit_best"@).unwrap(), k, m) == (!m.alt && !m.ctrl
            && !m.logo && k == "e"@),
        keys_trigger(default_binding("img_del"@).unwrap(), k, m) == (!m.alt && !m.ctrl && !m.logo
            && k == "delete"@),
        keys_trigger(default_binding("pan"@).unwrap(), k, m) == (!m.alt && !m.ctrl && !m.logo && k
            == "space"@),
{
    lemma_action_names_differ();
    reveal_strlit("Q");
    reveal_strlit("q");
    reveal_strlit("1");
    reveal_strlit("F");
    reveal_strlit("f");
    reveal_strlit("E");
    reveal_strlit("e");
    reveal_strlit("Delete");
    reveal_strlit("delete");
    reveal_strlit("Space");
    reveal_strlit("space");
    assert(default_binding("img_orig"@) == Some(seq!["Q"@, "1"@]));
    assert(default_binding("img_fit"@) == Some(seq!["F"@]));
    assert(default_binding("img_fit_best"@) == Some(seq!["E"@]));
    assert(default_binding("img_del"@) == Some(seq!["Delete"@]));
    assert(default_binding("pan"@) == Some(seq!["Space"@]));
    lemma_plain_bindings2("Q"@, "1"@, k, m);
    lemma_plain_bindings1("F"@, k, m);
    lemma_plain_bindings1("E"@, k, m);
    lemma_plain_bindings1("Delete"@, k, m);
    lemma_plain_bindings1("Space"@, k, m);
    assert(ascii_lower("Q"@) =~= "q"@);
    assert(ascii_lower("1"@) =~= "1"@);
    assert(ascii_lower("F"@) =~= "f"@);
    assert(ascii_lower("E"@) =~= "e"@);
    assert(ascii_lower("Delete"@) =~= "delete"@);
    assert(ascii_lower("Space"@) =~= "space"@);
}

/// The defaults of `play_anim`, `play_present` and `play_present_rnd`.
proof fn lemma_defaults_play(k: Seq<char>, m: Modifiers)
    ensures
        keys_trigger(default_binding("play_anim"@).unwrap(), k, m) == (m.alt && !m.ctrl && !m.logo
            && (k == "a"@ || k == "v"@)),
        keys_trigger(default_binding("play_present"@).unwrap(), k, m) == (!m.alt && !m.ctrl
            && !m.logo && k == "p"@),
        keys_trigger(default_binding("play_present_rnd"@).unwrap(), k, m) == (m.alt && !m.ctrl
            && !m.logo && k == "p"@),
{
    lemma_action_names_differ();
    reveal_strlit("Alt+A");
    reveal_strlit("Alt+V");
    reveal_strlit("Alt+P");
    reveal_strlit("Alt");
    reveal_strlit("alt");
    reveal_strlit("ctrl");
    reveal_strlit("logo");
    reveal_strlit("A");
    reveal_strlit("a");
    reveal_strlit("V");
    reveal_strlit("v");
    reveal_strlit("P");
    reveal_strlit("p");
    assert(default_binding("play_anim"@) == Some(seq!["Alt+A"@, "Alt+V"@]));
    assert(default_binding("play_present"@) == Some(seq!["P"@]));
    assert(default_binding("play_present_rnd"@) == Some(seq!["Alt+P"@]));
    assert("Alt+A"@ =~= "Alt"@ + seq!['+'] + "A"@);
    assert("Alt+V"@ =~= "Alt"@ + seq!['+'] + "V"@);
    assert("Alt+P"@ =~= "Alt"@ + seq!['+'] + "P"@);
    assert(ascii_lower("Alt"@) =~= "alt"@);
    assert(ascii_lower("A"@) =~= "a"@);
    assert(ascii_lower("V"@) =~= "v"@);
    assert(ascii_lower("P"@) =~= "p"@);
    assert("alt"@ != "ctrl"@ && "alt"@ != "logo"@);
    lemma_modified_binding("Alt"@, "A"@, k, m);
    lemma_modified_binding("Alt"@, "V"@, k, m);
    lemma_modified_binding("Alt"@, "P"@, k, m);
    lemma_plain_bindings1("P"@, k, m);
    let anim = seq!["Alt+A"@, "Alt+V"@];
    assert(anim[0] == "Alt+A"@ && anim[1] == "Alt+V"@);
    if binding_triggered(anim[0], k, m) || binding_triggered(anim[1], k, m) {
        assert(keys_trigger(anim, k, m));
    }
    let rnd = seq!["Alt+P"@];
    assert(rnd[0] == "Alt+P"@);
    if binding_triggered(rnd[0], k, m) {
        assert(keys_trigger(rnd, k, m));
    }
}

/// Without a `[bindings]` entry for it, each action is triggered by exactly its
/// default inputs, pressed with exactly the modifiers they name: `toggle_fullscreen` by
/// F11 and Return, `escape` by Escape, `img_next` by D, Right and PageDown, `img_prev`
/// by A, Left and PageUp, `img_orig` by Q and 1, `img_fit` by F, `img_fit_best` by E,
/// `img_del` by Delete, `pan` by Space, `play_anim` by Alt+A and Alt+V,
/// `play_present` by P, and `play_present_rnd` by Alt+P. Key names are compared in
/// lowercase, as a key press names them.
pub proof fn lemma_default_bindings(config: Configuration, k: Seq<char>, m: Modifiers)
    ensures
        configured_binding(config, "toggle_fullscreen"@) is None ==> (keys_trigger(
            effective_binding(config, "toggle_fullscreen"@),
            k,
            m,
        ) <==> (!m.alt && !m.ctrl && !m.logo && (k == "f11"@ || k == "return"@))),
        configured_binding(config, "escape"@) is None ==> (keys_trigger(
            effective_binding(config, "escape"@),
            k,
            m,
        ) <==> (!m.alt && !m.ctrl && !m.logo && k == "escape"@)),
        configured_binding(config, "img_next"@) is None ==> (keys_trigger(
            effective_binding(config, "img_next"@),
            k,
            m,
        ) <==> (!m.alt && !m.ctrl && !m.logo && (k == "d"@ || k == "right"@ || k == "pagedown"@))),
        configured_binding(config, "img_prev"@) is None ==> (keys_trigger(
            effective_binding(config, "img_prev"@),
            k,
            m,
        ) <==> (!m.alt && !m.ctrl && !m.logo && (k == "a"@ || k == "left"@ || k == "pageup"@))),
        configured_binding(config, "img_orig"@) is None ==> (keys_trigger(
            effective_binding(config, "img_orig"@),
            k,
            m,
        ) <==> (!m.alt && !m.ctrl && !m.logo && (k == "q"@ || k == "1"@))),
        configured_binding(config, "img_fit"@) is None ==> (keys_trigger(
            effective_binding(config, "img_fit"@),
            k,
            m,
        ) <==> (!m.alt && !m.ctrl && !m.logo && k == "f"@)),
        configured_binding(config, "img_fit_best"@) is None ==> (keys_trigger(
            effective_binding(config, "img_fit_best"@),
            k,
            m,
        ) <==> (!m.alt && !m.ctrl && !m.logo && k == "e"@)),
        configured_binding(config, "img_del"@) is None ==> (keys_trigger(
            effective_binding(config, "img_del"@),
            k,
            m,
        ) <==> (!m.alt && !m.ctrl && !m.logo && k == "delete"@)),
        configured_binding(config, "pan"@) is None ==> (keys_trigger(
            effective_binding(config, "pan"@),
            k,
            m,
        ) <==> (!m.alt && !m.ctrl && !m.logo && k == "space"@)),
        configured_binding(config, "play_anim"@) is None ==> (keys_trigger(
            effective_binding(config, "play_anim"@),
            k,
            m,
        ) <==> (m.alt && !m.ctrl && !m.logo && (k == "a"@ || k == "v"@))),
        configured_binding(config, "play_present"@) is None ==> (keys_trigger(
            effective_binding(config, "play_present"@),
            k,
            m,
        ) <==> (!m.alt && !m.ctrl && !m.logo && k == "p"@)),
        configured_binding(config, "play_present_rnd"@) is None ==> (keys_trigger(
            effective_binding(config, "play_present_rnd"@),
            k,
            m,
        ) <==> (m.alt && !m.ctrl && !m.logo && k == "p"@)),
{
    lemma_defaults_navigation(k, m);
    lemma_defaults_view(k, m);
    lemma_defaults_play(k, m);
}

} // verus!
