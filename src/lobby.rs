//! The lobby menu's decisions: editing the name, moving between screens,
//! cycling skin items, and what to start.
use vstd::prelude::*;

use crate::skin;
use crate::skin::opt_view;

verus! {

/// Longest name the lobby accepts.
pub const NAME_MAX: usize = 15;

#[derive(Clone, Copy, Debug, PartialEq, Eq, Structural)]
pub enum UiMessage {
    Input(char),
    Delete,
    Back,
    RandomSkin,
    ChangeHat,
    ChangeFace,
    ChangeCoat,
    ChangePants,
    ChangeEquipment,
    SecretSkin,
    Leaderboard,
    Play,
    Customize,
    Spectate,
    JoinDiscord,
}

#[derive(Clone, Copy, Debug, PartialEq, Eq, Structural)]
pub enum State {
    Main,
    Leaderboard,
    Customizer,
    Keyboard,
}

/// What the surrounding program has to do after a message.
#[derive(Clone, Copy, Debug, PartialEq, Eq, Structural)]
pub enum Outcome {
    Stay,
    Play,
    Spectate,
    OpenDiscord,
    RandomSkin,
    SecretSkin,
}

/// The item names the customizer cycles through, per slot.
pub struct SkinOptions {
    pub hat: Vec<String>,
    pub face: Vec<String>,
    pub coat: Vec<String>,
    pub pants: Vec<String>,
    pub equipment: Vec<String>,
}

pub struct Menu {
    pub state: State,
    pub name: Vec<char>,
    pub config: skin::Config,
}

/// Position of the first option named `name`, or zero.
pub open spec fn position_or_zero(options: Seq<String>, name: Seq<char>) -> int {
    if exists|i: int| 0 <= i < options.len() && options[i]@ == name {
        choose|i: int| 0 <= i < options.len() && options[i]@ == name && forall|k: int| 0 <= k < i ==> options[k]@ != name
    } else {
        0
    }
}

/// The slot after cycling: the option following the current one. An empty
/// slot, or one with no options, stays as it is.
pub open spec fn next_item(item: Option<Seq<char>>, options: Seq<String>) -> Option<Seq<char>> {
    match item {
        Some(name) => if options.len() == 0 {
            item
        } else {
            Some(options[(position_or_zero(options, name) + 1) % (options.len() as int)]@)
        },
        None => None,
    }
}

/// Position of the first option named `name`.
fn first_position(options: &Vec<String>, name: &String) -> (r: Option<usize>)
    ensures
        r matches Some(i) ==> i < options@.len() && options@[i as int]@ == name@ && forall|k: int|
            0 <= k < i ==> options@[k]@ != name@,
        r is None ==> forall|k: int| 0 <= k < options@.len() ==> options@[k]@ != name@,
{
    let mut i: usize = 0;
    while i < options.len()
        invariant
            i <= options@.len(),
            forall|k: int| 0 <= k < i ==> options@[k]@ != name@,
        decreases options@.len() - i,
    {
        if options[i] == *name {
            return Some(i);
        }
        i += 1;
    }
    None
}

/// Moves a slot to its next option.
pub fn change_skin_item(item: &mut Option<String>, options: &Vec<String>)
    ensures
        opt_view(*final(item)) == next_item(opt_view(*old(item)), options@),
{
    if options.len() == 0 {
        return;
    }
    let next = match item {
        Some(name) => {
            let found = first_position(options, name);
            let current: usize = match found {
                Some(i) => i,
                None => 0,
            };
            proof {
                let p = position_or_zero(options@, name@);
                if found is Some {
                    assert(exists|i: int| 0 <= i < options@.len() && options@[i]@ == name@);
                    let c = choose|i: int| 0 <= i < options@.len() && options@[i]@ == name@ && forall|k: int| 0 <= k < i ==> options@[k]@ != name@;
                    assert(c == current) by {
                        if c < current {
                            assert(options@[c]@ != name@);
                        } else if c > current {
                            assert(options@[current as int]@ != name@);
                        }
                    }
                } else {
                    assert(!exists|i: int| 0 <= i < options@.len() && options@[i]@ == name@);
                }
                assert(p == current);
            }
            Some(options[(current + 1) % options.len()].clone())
        },
        None => None,
    };
    *item = next;
}

/// The lobby after one message: the screen, the name, and the looks.
pub open spec fn name_after(name: Seq<char>, message: UiMessage) -> Seq<char> {
    match message {
        UiMessage::Input(c) => if name.len() < NAME_MAX { name.push(c) } else { name },
        UiMessage::Delete => if name.len() > 0 { name.drop_last() } else { name },
        _ => name,
    }
}

pub open spec fn state_after(state: State, message: UiMessage) -> State {
    match message {
        UiMessage::Back => State::Main,
        UiMessage::Leaderboard => State::Leaderboard,
        UiMessage::Customize => State::Customizer,
        _ => state,
    }
}

pub open spec fn outcome_of(message: UiMessage) -> Outcome {
    match message {
        UiMessage::Play => Outcome::Play,
        UiMessage::Spectate => Outcome::Spectate,
        UiMessage::JoinDiscord => Outcome::OpenDiscord,
        UiMessage::RandomSkin => Outcome::RandomSkin,
        UiMessage::SecretSkin => Outcome::SecretSkin,
        _ => Outcome::Stay,
    }
}

impl Menu {
    pub fn new(name: Vec<char>, config: skin::Config) -> (r: Menu)
        ensures
            r.state == State::Main,
            r.name@ == name@,
            r.config@ == config@,
    {
        Menu { state: State::Main, name, config }
    }

    /// Applies one button press or key. Starting a game, opening the
    /// community link, drawing a random skin and looking up a secret skin
    /// are left to the caller, as the returned outcome says.
    pub fn handle_ui(&mut self, message: UiMessage, options: &SkinOptions) -> (r: Outcome)
        ensures
            r == outcome_of(message),
            final(self).name@ == name_after(old(self).name@, message),
            final(self).state == state_after(old(self).state, message),
            final(self).config@.hat == (if message is ChangeHat { next_item(old(self).config@.hat, options.hat@) } else { old(self).config@.hat }),
            final(self).config@.face == (if message is ChangeFace { next_item(old(self).config@.face, options.face@) } else { old(self).config@.face }),
            final(self).config@.coat == (if message is ChangeCoat { next_item(old(self).config@.coat, options.coat@) } else { old(self).config@.coat }),
            final(self).config@.pants == (if message is ChangePants { next_item(old(self).config@.pants, options.pants@) } else { old(self).config@.pants }),
            final(self).config@.equipment == (if message is ChangeEquipment { next_item(old(self).config@.equipment, options.equipment@) } else { old(self).config@.equipment }),
            final(self).config@.secret == old(self).config@.secret,
    {
        match message {
            UiMessage::Input(c) => {
                if self.name.len() < NAME_MAX {
                    self.name.push(c);
                }
                Outcome::Stay
            },
            UiMessage::Delete => {
                if self.name.len() > 0 {
                    self.name.pop();
                }
                Outcome::Stay
            },
            UiMessage::Back => {
                self.state = State::Main;
                Outcome::Stay
            },
            UiMessage::Leaderboard => {
                self.state = State::Leaderboard;
                Outcome::Stay
            },
            UiMessage::Customize => {
                self.state = State::Customizer;
                Outcome::Stay
            },
            UiMessage::ChangeHat => {
                change_skin_item(&mut self.config.hat, &options.hat);
                Outcome::Stay
            },
            UiMessage::ChangeFace => {
                change_skin_item(&mut self.config.face, &options.face);
                Outcome::Stay
            },
            UiMessage::ChangeCoat => {
                change_skin_item(&mut self.config.coat, &options.coat);
                Outcome::Stay
            },
            UiMessage::ChangePants => {
                change_skin_item(&mut self.config.pants, &options.pants);
                Outcome::Stay
            },
            UiMessage::ChangeEquipment => {
                change_skin_item(&mut self.config.equipment, &options.equipment);
                Outcome::Stay
            },
            UiMessage::Play => Outcome::Play,
            UiMessage::Spectate => Outcome::Spectate,
            UiMessage::JoinDiscord => Outcome::OpenDiscord,
            UiMessage::RandomSkin => Outcome::RandomSkin,
            UiMessage::SecretSkin => Outcome::SecretSkin,
        }
    }
}

} // verus!
