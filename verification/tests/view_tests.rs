use rmus::model::Album;
use rmus::model::Artist;
use rmus::model::Track;
use rmus::view::Focus;
use rmus::view::ViewModel;
use rmus::widget::StatefulList;

fn track(id: i64, title: &str) -> Track {
    Track {
        id,
        title: String::from(title),
        album: Album {
            id: 1,
            name: String::from("Omega"),
        },
        artist: Artist {
            id: 1,
            name: String::from("Epica"),
        },
        file_path: format!("/music/{}.flac", id),
    }
}

fn artist(id: i64, name: &str) -> Artist {
    Artist {
        id,
        name: String::from(name),
    }
}

fn library_view() -> ViewModel {
    ViewModel::Library {
        artists: StatefulList::from_vec(vec![artist(1, "Epica"), artist(2, "Ayreon")]),
        tracks: StatefulList::from_vec(vec![track(1, "Alpha"), track(2, "Beta")]),
        focus: Focus::First,
    }
}

fn cursors(view: &ViewModel) -> (Option<usize>, Option<usize>) {
    match view {
        ViewModel::Library {
            artists, tracks, ..
        } => (artists.selected, tracks.selected),
        ViewModel::Track(list) => (None, list.selected),
    }
}

#[test]
fn focus_toggle_moves_exactly_one_cursor() {
    let mut view = library_view();

    view.next();
    assert_eq!(cursors(&view), (Some(0), None));
    view.next();
    assert_eq!(cursors(&view), (Some(1), None));

    view.change_focus();
    view.next();
    assert_eq!(cursors(&view), (Some(1), Some(0)));
    view.next();
    assert_eq!(cursors(&view), (Some(1), Some(1)));
}

#[test]
fn current_track_ignores_which_list_has_focus() {
    let mut view = library_view();

    // navigating the artist list alone never yields a current track
    view.next();
    assert!(view.current().is_none());

    view.change_focus();
    view.next();
    let before = view.current().unwrap().title.clone();

    view.change_focus();
    let after = view.current().unwrap().title.clone();
    assert_eq!(before, after);
    assert_eq!(after, "Alpha");
}

#[test]
fn unselect_clears_only_the_active_list() {
    let mut view = library_view();
    view.next();
    view.change_focus();
    view.next();
    assert_eq!(cursors(&view), (Some(0), Some(0)));

    // focus sits on the track list: only its cursor is cleared
    view.unselect();
    assert_eq!(cursors(&view), (Some(0), None));
}

#[test]
fn single_list_view_delegates_directly() {
    let mut view = ViewModel::Track(StatefulList::from_vec(vec![
        track(1, "Alpha"),
        track(2, "Beta"),
        track(3, "Gamma"),
    ]));
    view.next();
    view.next();
    assert_eq!(view.current().unwrap().title, "Beta");

    // change_focus is a no-op on a single list
    view.change_focus();
    assert_eq!(view.current().unwrap().title, "Beta");

    view.previous();
    assert_eq!(view.current().unwrap().title, "Alpha");
    view.previous();
    assert_eq!(view.current().unwrap().title, "Gamma");

    view.unselect();
    assert!(view.current().is_none());
}
