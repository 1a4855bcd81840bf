//! The main menu's state and navigation: which screen is shown, the new
//! world's settings, the selected saved world, and what each button does.
use vstd::prelude::*;
use vstd::string::*;
use crate::number::{parse_u64, parse_unsigned};
use crate::text::chars_of;

verus! {

/// The screens of the main menu.
#[derive(Debug, Clone, Copy, PartialEq, Eq, Structural)]
pub enum MenuScreen {
    Main,
    LoadWorld,
    CreateWorld,
    Settings,
    Credits,
    Loading,
}

/// The kinds of world that can be created.
#[derive(Debug, Clone, Copy, PartialEq, Eq, Structural)]
pub enum WorldType {
    Normal,
    Superflat,
    Void,
}

impl Default for WorldType {
    fn default() -> (r: Self)
        ensures
            r == WorldType::Normal,
    {
        WorldType::Normal
    }
}

/// Difficulty levels.
#[derive(Debug, Clone, Copy, PartialEq, Eq, Structural)]
pub enum Difficulty {
    Peaceful,
    Easy,
    Normal,
    Hard,
}

impl Default for Difficulty {
    fn default() -> (r: Self)
        ensures
            r == Difficulty::Normal,
    {
        Difficulty::Normal
    }
}

/// Game modes.
#[derive(Debug, Clone, Copy, PartialEq, Eq, Structural)]
pub enum GameMode {
    Survival,
    Creative,
    Adventure,
}

impl Default for GameMode {
    fn default() -> (r: Self)
        ensures
            r == GameMode::Survival,
    {
        GameMode::Survival
    }
}

/// The settings of the world being created.
pub struct CreateWorldState {
    pub name: String,
    pub world_type: WorldType,
    pub difficulty: Difficulty,
    pub game_mode: GameMode,
    pub seed: String,
}

/// The settings a new world starts with: no name, no seed, a normal world
/// of normal difficulty in survival mode.
pub open spec fn is_default_create_state(s: CreateWorldState) -> bool {
    &&& s.name@ == Seq::<char>::empty()
    &&& s.seed@ == Seq::<char>::empty()
    &&& s.world_type == WorldType::Normal
    &&& s.difficulty == Difficulty::Normal
    &&& s.game_mode == GameMode::Survival
}

impl Default for CreateWorldState {
    fn default() -> (r: Self)
        ensures
            is_default_create_state(r),
    {
        CreateWorldState {
            name: String::new(),
            world_type: WorldType::Normal,
            difficulty: Difficulty::Normal,
            game_mode: GameMode::Survival,
            seed: String::new(),
        }
    }
}

/// What the user did on the menu: a button clicked, a world picked, a
/// setting edited.
pub enum MenuEvent {
    LoadWorldClicked,
    CreateWorldClicked,
    SettingsClicked,
    CreditsClicked,
    WorldSelected(String),
    PlaySelectedClicked,
    DeleteClicked,
    BackClicked,
    NameEdited(String),
    SeedEdited(String),
    WorldTypeChosen(WorldType),
    DifficultyChosen(Difficulty),
    GameModeChosen(GameMode),
    CreateClicked,
    CancelClicked,
    SaveClicked,
    DefaultsClicked,
}

/// What the menu asks of its surroundings after an event.
pub enum MenuCommand {
    Nothing,
    /// List the saved worlds and hand them to `scan_for_worlds`.
    ScanWorlds,
    /// Delete the saved world of this name, then list the saved worlds.
    DeleteWorld(String),
}

/// A request to load a world: its save path and, for a new world, its name
/// and seed.
pub struct LoadRequest {
    pub path: String,
    pub new_world: Option<(String, u64)>,
}

/// The menu's state.
pub struct MenuState {
    pub current_screen: MenuScreen,
    pub create_world_state: CreateWorldState,
    pub selected_world: Option<String>,
    pub worlds_list: Vec<String>,
}

/// Whether a character is white space (`char::is_whitespace`: the Unicode
/// White_Space property).
pub open spec fn is_white_space(c: char) -> bool {
    let u = c as u32;
    (0x09 <= u <= 0x0d) || u == 0x20 || u == 0x85 || u == 0xa0 || u == 0x1680 || (0x2000 <= u
        <= 0x200a) || u == 0x2028 || u == 0x2029 || u == 0x202f || u == 0x205f || u == 0x3000
}

/// Whether a text is empty once trimmed: all its characters are white space.
pub open spec fn is_blank(s: Seq<char>) -> bool {
    forall|i: int| 0 <= i < s.len() ==> is_white_space(#[trigger] s[i])
}

/// The hash of a name under the standard library's `DefaultHasher`.
pub uninterp spec fn default_hash(name: Seq<char>) -> u64;

/// Hashes a name with `std::collections::hash_map::DefaultHasher::new()`
/// (`Hash for str`, then `Hasher::finish`). The contract names the result: a
/// `DefaultHasher` made by `new` has fixed keys, so the result depends on the
/// name alone.
#[verifier::external_body]
fn hash_name(name: &str) -> (r: u64)
    ensures
        r == default_hash(name@),
{
    let mut h = std::collections::hash_map::DefaultHasher::new();
    std::hash::Hash::hash(name, &mut h);
    std::hash::Hasher::finish(&h)
}

/// Whether a text is blank (see `is_blank`).
pub fn blank(s: &str) -> (r: bool)
    ensures
        r == is_blank(s@),
{
    let cs = chars_of(s);
    let mut i: usize = 0;
    while i < cs.len()
        invariant
            cs@ == s@,
            i <= cs@.len(),
            forall|j: int| 0 <= j < i ==> is_white_space(#[trigger] cs@[j]),
        decreases cs@.len() - i,
    {
        let u = cs[i] as u32;
        let ws = (0x09 <= u && u <= 0x0d) || u == 0x20 || u == 0x85 || u == 0xa0 || u == 0x1680 || (
        0x2000 <= u && u <= 0x200a) || u == 0x2028 || u == 0x2029 || u == 0x202f || u == 0x205f || u
            == 0x3000;
        if !ws {
            assert(!is_white_space(cs@[i as int]));
            return false;
        }
        i = i + 1;
    }
    true
}

/// The seed of a new world: the seed text read as a number (see
/// `parse_unsigned`), else the hash of the world's name.
pub fn resolve_seed(seed: &str, name: &str) -> (r: u64)
    ensures
        match parse_unsigned(seed@, u64::MAX as int) {
            Some(v) => r == v,
            None => r == default_hash(name@),
        },
{
    let cs = chars_of(seed);
    proof {
        if let Some(v) = parse_unsigned(seed@, u64::MAX as int) {
            assert(0 <= v <= u64::MAX) by {
                crate::number::lemma_digits_value_prefix(crate::number::unsigned_digits(seed@), 0);
                assert(crate::number::unsigned_digits(seed@).take(0) =~= Seq::<char>::empty());
            }
        }
    }
    match parse_u64(&cs) {
        Some(v) => v,
        None => hash_name(name),
    }
}

/// The save path of a world: "worlds/" and its name.
pub fn world_path(name: &str) -> (r: String)
    ensures
        r@ == "worlds/"@ + name@,
{
    let mut p = String::from_str("worlds/");
    p.append(name);
    p
}

/// The worlds listed when no saved world is found.
pub open spec fn placeholder_worlds(list: Seq<String>) -> bool {
    list.len() == 2 && list[0]@ == "Test World"@ && list[1]@ == "Creative Build"@
}

/// The screen that an event leads to from a screen, given whether a world
/// is selected and whether the new world's name is blank.
pub open spec fn next_screen(screen: MenuScreen, e: MenuEvent, selected: bool, name_blank: bool) -> MenuScreen {
    match (screen, e) {
        (MenuScreen::Main, MenuEvent::LoadWorldClicked) => MenuScreen::LoadWorld,
        (MenuScreen::Main, MenuEvent::CreateWorldClicked) => MenuScreen::CreateWorld,
        (MenuScreen::Main, MenuEvent::SettingsClicked) => MenuScreen::Settings,
        (MenuScreen::Main, MenuEvent::CreditsClicked) => MenuScreen::Credits,
        (MenuScreen::LoadWorld, MenuEvent::PlaySelectedClicked) => if selected {
            MenuScreen::Loading
        } else {
            screen
        },
        (MenuScreen::LoadWorld, MenuEvent::BackClicked) => MenuScreen::Main,
        (MenuScreen::CreateWorld, MenuEvent::CreateClicked) => if !name_blank {
            MenuScreen::Loading
        } else {
            screen
        },
        (MenuScreen::CreateWorld, MenuEvent::CancelClicked) => MenuScreen::Main,
        (MenuScreen::Settings, MenuEvent::SaveClicked) => MenuScreen::Main,
        (MenuScreen::Settings, MenuEvent::CancelClicked) => MenuScreen::Main,
        (MenuScreen::Credits, MenuEvent::BackClicked) => MenuScreen::Main,
        _ => screen,
    }
}

/// Creating a world needs a name: on the create-world screen, "Create"
/// leads to the loading screen exactly when the new world's name holds a
/// character that is not white space, and otherwise the screen stays.
/// Whether a world is selected plays no part.
pub proof fn lemma_create_needs_a_name(name: Seq<char>, selected: bool)
    ensures
        next_screen(MenuScreen::CreateWorld, MenuEvent::CreateClicked, selected, is_blank(name)) == (if exists|i: int|
            #![trigger name[i]]
            0 <= i < name.len() && !is_white_space(name[i]) {
            MenuScreen::Loading
        } else {
            MenuScreen::CreateWorld
        }),
{
}

/// Each button of the main screen opens its own screen, and that screen's
/// way back (Back, or Cancel and Save for the forms) returns to the main
/// screen; once loading has begun, no event leaves the loading screen.
pub proof fn lemma_menu_round_trips(e: MenuEvent, selected: bool, name_blank: bool)
    ensures
        next_screen(MenuScreen::Main, MenuEvent::LoadWorldClicked, selected, name_blank) == MenuScreen::LoadWorld,
        next_screen(MenuScreen::Main, MenuEvent::CreateWorldClicked, selected, name_blank) == MenuScreen::CreateWorld,
        next_screen(MenuScreen::Main, MenuEvent::SettingsClicked, selected, name_blank) == MenuScreen::Settings,
        next_screen(MenuScreen::Main, MenuEvent::CreditsClicked, selected, name_blank) == MenuScreen::Credits,
        next_screen(MenuScreen::LoadWorld, MenuEvent::BackClicked, selected, name_blank) == MenuScreen::Main,
        next_screen(MenuScreen::CreateWorld, MenuEvent::CancelClicked, selected, name_blank) == MenuScreen::Main,
        next_screen(MenuScreen::Settings, MenuEvent::SaveClicked, selected, name_blank) == MenuScreen::Main,
        next_screen(MenuScreen::Settings, MenuEvent::CancelClicked, selected, name_blank) == MenuScreen::Main,
        next_screen(MenuScreen::Credits, MenuEvent::BackClicked, selected, name_blank) == MenuScreen::Main,
        next_screen(MenuScreen::Loading, e, selected, name_blank) == MenuScreen::Loading,
{
}

/// Playing a saved world needs a selection: on the load screen, "Play"
/// leads to the loading screen exactly when a world is selected.
pub proof fn lemma_play_needs_a_selection(selected: bool, name_blank: bool)
    ensures
        next_screen(MenuScreen::LoadWorld, MenuEvent::PlaySelectedClicked, selected, name_blank) == (if selected {
            MenuScreen::Loading
        } else {
            MenuScreen::LoadWorld
        }),
{
}

impl MenuState {
    /// The main screen, default world settings, no world selected, no world
    /// listed.
    pub fn dummy() -> (r: Self)
        ensures
            r.current_screen == MenuScreen::Main,
            is_default_create_state(r.create_world_state),
            r.selected_world is None,
            r.worlds_list@.len() == 0,
    {
        MenuState {
            current_screen: MenuScreen::Main,
            create_world_state: CreateWorldState::default(),
            selected_world: None,
            worlds_list: Vec::new(),
        }
    }

    /// Takes the saved worlds found; when there is none, lists the two
    /// placeholder worlds "Test World" and "Creative Build".
    pub fn scan_for_worlds(&mut self, found: Vec<String>)
        ensures
            found@.len() > 0 ==> final(self).worlds_list@ == found@,
            found@.len() == 0 ==> placeholder_worlds(final(self).worlds_list@),
            final(self).current_screen == old(self).current_screen,
            final(self).create_world_state == old(self).create_world_state,
            final(self).selected_world == old(self).selected_world,
    {
        self.worlds_list = found;
        if self.worlds_list.len() == 0 {
            let mut list: Vec<String> = Vec::new();
            list.push(String::from_str("Test World"));
            list.push(String::from_str("Creative Build"));
            self.worlds_list = list;
        }
    }

    /// Applies an event of the shown screen: moves between screens (see
    /// `next_screen`), records the selected world and the new world's
    /// settings, and says what the surroundings must do: list the saved
    /// worlds on entering the load screen, delete the selected world on
    /// "Delete". Events of other screens change nothing.
    pub fn on_event(&mut self, e: MenuEvent) -> (cmd: MenuCommand)
        ensures
            final(self).current_screen == next_screen(
                old(self).current_screen,
                e,
                old(self).selected_world is Some,
                is_blank(old(self).create_world_state.name@),
            ),
            final(self).worlds_list == old(self).worlds_list,
            old(self).current_screen == MenuScreen::Main && e is LoadWorldClicked ==> cmd is ScanWorlds,
            old(self).current_screen == MenuScreen::LoadWorld && e is DeleteClicked ==> match old(self).selected_world {
                Some(w) => cmd matches MenuCommand::DeleteWorld(n) && n@ == w@,
                None => cmd is Nothing,
            },
            !(old(self).current_screen == MenuScreen::Main && e is LoadWorldClicked) && !(old(self).current_screen == MenuScreen::LoadWorld && e is DeleteClicked) ==> cmd is Nothing,
            old(self).current_screen == MenuScreen::LoadWorld && e is WorldSelected ==> (final(self).selected_world matches Some(w) && w@ == e->WorldSelected_0@),
            !(old(self).current_screen == MenuScreen::LoadWorld && e is WorldSelected) ==> final(self).selected_world == old(self).selected_world,
            old(self).current_screen == MenuScreen::CreateWorld ==> match e {
                MenuEvent::NameEdited(n) => final(self).create_world_state == (CreateWorldState {
                    name: n,
                    ..old(self).create_world_state
                }),
                MenuEvent::SeedEdited(sd) => final(self).create_world_state == (CreateWorldState {
                    seed: sd,
                    ..old(self).create_world_state
                }),
                MenuEvent::WorldTypeChosen(t) => final(self).create_world_state == (CreateWorldState {
                    world_type: t,
                    ..old(self).create_world_state
                }),
                MenuEvent::DifficultyChosen(d) => final(self).create_world_state == (CreateWorldState {
                    difficulty: d,
                    ..old(self).create_world_state
                }),
                MenuEvent::GameModeChosen(g) => final(self).create_world_state == (CreateWorldState {
                    game_mode: g,
                    ..old(self).create_world_state
                }),
                _ => final(self).create_world_state == old(self).create_world_state,
            },
            old(self).current_screen != MenuScreen::CreateWorld ==> final(self).create_world_state
                == old(self).create_world_state,
    {
        let ghost name_blank = is_blank(self.create_world_state.name@);
        match self.current_screen {
            MenuScreen::Main => match e {
                MenuEvent::LoadWorldClicked => {
                    self.current_screen = MenuScreen::LoadWorld;
                    MenuCommand::ScanWorlds
                },
                MenuEvent::CreateWorldClicked => {
                    self.current_screen = MenuScreen::CreateWorld;
                    MenuCommand::Nothing
                },
                MenuEvent::SettingsClicked => {
                    self.current_screen = MenuScreen::Settings;
                    MenuCommand::Nothing
                },
                MenuEvent::CreditsClicked => {
                    self.current_screen = MenuScreen::Credits;
                    MenuCommand::Nothing
                },
                _ => MenuCommand::Nothing,
            },
            MenuScreen::LoadWorld => match e {
                MenuEvent::WorldSelected(w) => {
                    self.selected_world = Some(w);
                    MenuCommand::Nothing
                },
                MenuEvent::PlaySelectedClicked => {
                    if self.selected_world.is_some() {
                        self.current_screen = MenuScreen::Loading;
                    }
                    MenuCommand::Nothing
                },
                MenuEvent::DeleteClicked => match &self.selected_world {
                    Some(w) => MenuCommand::DeleteWorld(w.clone()),
                    None => MenuCommand::Nothing,
                },
                MenuEvent::BackClicked => {
                    self.current_screen = MenuScreen::Main;
                    MenuCommand::Nothing
                },
                _ => MenuCommand::Nothing,
            },
            MenuScreen::CreateWorld => match e {
                MenuEvent::NameEdited(n) => {
                    self.create_world_state.name = n;
                    MenuCommand::Nothing
                },
                MenuEvent::SeedEdited(s) => {
                    self.create_world_state.seed = s;
                    MenuCommand::Nothing
                },
                MenuEvent::WorldTypeChosen(t) => {
                    self.create_world_state.world_type = t;
                    MenuCommand::Nothing
                },
                MenuEvent::DifficultyChosen(d) => {
                    self.create_world_state.difficulty = d;
                    MenuCommand::Nothing
                },
                MenuEvent::GameModeChosen(g) => {
                    self.create_world_state.game_mode = g;
                    MenuCommand::Nothing
                },
                MenuEvent::CreateClicked => {
                    if !blank(self.create_world_state.name.as_str()) {
                        self.current_screen = MenuScreen::Loading;
                    }
                    MenuCommand::Nothing
                },
                MenuEvent::CancelClicked => {
                    self.current_screen = MenuScreen::Main;
                    MenuCommand::Nothing
                },
                _ => MenuCommand::Nothing,
            },
            MenuScreen::Settings => match e {
                MenuEvent::SaveClicked => {
                    self.current_screen = MenuScreen::Main;
                    MenuCommand::Nothing
                },
                MenuEvent::CancelClicked => {
                    self.current_screen = MenuScreen::Main;
                    MenuCommand::Nothing
                },
                _ => MenuCommand::Nothing,
            },
            MenuScreen::Credits => match e {
                MenuEvent::BackClicked => {
                    self.current_screen = MenuScreen::Main;
                    MenuCommand::Nothing
                },
                _ => MenuCommand::Nothing,
            },
            MenuScreen::Loading => MenuCommand::Nothing,
        }
    }

    /// On the loading screen, loads the selected world, or else creates the
    /// new world (its seed from `resolve_seed`), through `load_world`, which
    /// says whether it succeeded; on failure goes back to the load screen or
    /// the create screen. The new world's settings are then reset. On other
    /// screens does nothing.
    pub fn handle_transitions<F: Fn(&LoadRequest) -> bool>(&mut self, load_world: &F)
        requires
            forall|q: &LoadRequest| load_world.requires((q,)),
        ensures
            old(self).current_screen != MenuScreen::Loading ==> *final(self) == *old(self),
            old(self).current_screen == MenuScreen::Loading ==> {
                &&& is_default_create_state(final(self).create_world_state)
                &&& final(self).selected_world == old(self).selected_world
                &&& final(self).worlds_list == old(self).worlds_list
                &&& exists|q: &LoadRequest, ok: bool|
                    #![trigger load_world.ensures((q,), ok)]
                    load_world.ensures((q,), ok) && match old(self).selected_world {
                        Some(w) => q.path@ == "worlds/"@ + w@ && q.new_world is None
                            && final(self).current_screen == (if ok {
                            MenuScreen::Loading
                        } else {
                            MenuScreen::LoadWorld
                        }),
                        None => {
                            let name = old(self).create_world_state.name@;
                            &&& q.path@ == "worlds/"@ + name
                            &&& q.new_world matches Some((n, sd)) && n@ == name && sd == match parse_unsigned(
                                old(self).create_world_state.seed@,
                                u64::MAX as int,
                            ) {
                                Some(v) => v as u64,
                                None => default_hash(name),
                            }
                            &&& final(self).current_screen == (if ok {
                                MenuScreen::Loading
                            } else {
                                MenuScreen::CreateWorld
                            })
                        },
                    }
            },
    {
        if self.current_screen != MenuScreen::Loading {
            return ;
        }
        match &self.selected_world {
            Some(w) => {
                let q = LoadRequest { path: world_path(w.as_str()), new_world: None };
                let ok = load_world(&q);
                if !ok {
                    self.current_screen = MenuScreen::LoadWorld;
                }
            },
            None => {
                let name = self.create_world_state.name.as_str();
                let seed = resolve_seed(self.create_world_state.seed.as_str(), name);
                let q = LoadRequest {
                    path: world_path(name),
                    new_world: Some((self.create_world_state.name.clone(), seed)),
                };
                let ok = load_world(&q);
                if !ok {
                    self.current_screen = MenuScreen::CreateWorld;
                }
            },
        }
        self.create_world_state = CreateWorldState::default();
    }
}

} // verus!
