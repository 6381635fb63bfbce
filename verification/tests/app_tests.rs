use rmus::app::App;
use rmus::model::Album;
use rmus::model::Artist;
use rmus::model::Track;
use rmus::player::Player;
use rmus::view::Focus;
use rmus::view::ViewModel;
use rmus::widget::StatefulList;

/// A player that only records what it was asked to do.
struct RecordingPlayer {
    played: Vec<String>,
    pause_toggles: usize,
}

impl Player for RecordingPlayer {
    fn play_new_track(&mut self, path: &str) {
        self.played.push(String::from(path));
    }

    fn toggle_pause(&mut self) {
        self.pause_toggles += 1;
    }
}

fn track(id: i64, title: &str, path: &str) -> Track {
    Track {
        id,
        title: String::from(title),
        album: Album {
            id: 1,
            name: String::from("Omega"),
        },
        artist: Artist {
            id: 1,
            name: String::from("Epica"),
        },
        file_path: String::from(path),
    }
}

fn track_app() -> App<RecordingPlayer> {
    App {
        view: ViewModel::Track(StatefulList::from_vec(vec![
            track(1, "Alpha", "/music/alpha.flac"),
            track(2, "Beta", "/music/beta.flac"),
        ])),
        player: RecordingPlayer {
            played: Vec::new(),
            pause_toggles: 0,
        },
    }
}

#[test]
fn select_plays_the_selected_track_path() {
    let mut app = track_app();
    app.next();
    app.next();
    app.select();
    assert_eq!(app.player.played, vec![String::from("/music/beta.flac")]);
}

#[test]
fn select_without_a_selection_plays_nothing() {
    let mut app = track_app();
    app.select();
    assert!(app.player.played.is_empty());

    app.next();
    app.unselect();
    app.select();
    assert!(app.player.played.is_empty());
}

#[test]
fn select_in_the_paired_view_plays_nothing() {
    let mut app = App {
        view: ViewModel::Library {
            artists: StatefulList::from_vec(vec![Artist {
                id: 1,
                name: String::from("Epica"),
            }]),
            tracks: StatefulList::from_vec(vec![track(1, "Alpha", "/music/alpha.flac")]),
            focus: Focus::First,
        },
        player: RecordingPlayer {
            played: Vec::new(),
            pause_toggles: 0,
        },
    };
    app.next();
    app.select();
    assert!(app.player.played.is_empty());
}

#[test]
fn toggle_pause_reaches_the_player() {
    let mut app = track_app();
    app.toggle_pause();
    app.toggle_pause();
    assert_eq!(app.player.pause_toggles, 2);
}

#[test]
fn navigation_wraps_in_the_track_view() {
    let mut app = track_app();
    app.previous();
    match &app.view {
        ViewModel::Track(list) => assert_eq!(list.selected, Some(0)),
        _ => unreachable!(),
    }
    app.previous();
    match &app.view {
        ViewModel::Track(list) => assert_eq!(list.selected, Some(1)),
        _ => unreachable!(),
    }
}
