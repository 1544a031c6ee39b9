use jarlid::title::{simplify_title, undouble};

#[test]
fn repetitions_collapse() {
    assert_eq!(undouble("AbcAbcAbc"), "Abc");
    assert_eq!(undouble("AbcAbc"), "Abc");
    assert_eq!(undouble("AbcAbcAbcAbc"), "Abc");
    assert_eq!(undouble("Abc"), "Abc");
    assert_eq!(undouble("  Hey JudeHey Jude  "), "Hey Jude");
}

#[test]
fn repetitions_collapse_within_repetitions() {
    // Five copies are no repetition of two to four; eight are two of four.
    assert_eq!(undouble("ababababab"), "ababababab");
    assert_eq!(undouble("abababababababab"), "ab");
    assert_eq!(undouble("aaaaaa"), "a");
    assert_eq!(undouble("aaaaa"), "aaaaa");
}

#[test]
fn single_part_is_kept() {
    assert_eq!(undouble(""), "");
    assert_eq!(undouble("   "), "");
    assert_eq!(undouble("a"), "a");
    assert_eq!(undouble("aba"), "aba");
    assert_eq!(undouble("Abc Abc"), "Abc Abc");
}

#[test]
fn accented_titles_collapse() {
    assert_eq!(undouble("Déjà VuDéjà Vu"), "Déjà Vu");
    assert_eq!(undouble("é"), "é");
    assert_eq!(undouble("éé"), "é");
    assert_eq!(undouble("日本日本日本"), "日本");
}

#[test]
fn undoubling_twice_is_undoubling_once() {
    for s in ["AbcAbcAbc", " x x ", "", "aaaaaaaa", "No Repeat", "ééééé"] {
        let once = undouble(s);
        assert_eq!(undouble(&once), once);
    }
}

#[test]
fn two_to_four_copies_give_the_part() {
    for part in ["Abc", "a b", "xy xz", "é"] {
        for k in 2..=4 {
            assert_eq!(undouble(&part.repeat(k)), part);
        }
    }
    for part in ["", "abab", "ababab", "aaaaa", "xxxxxx", "ababababab"] {
        for k in 2..=4 {
            assert_eq!(undouble(&part.repeat(k)), undouble(part));
        }
    }
}

#[test]
fn descriptors_are_stripped() {
    assert_eq!(simplify_title("Song (I Just Wanna Fall in Love)"), "Song");
    assert_eq!(simplify_title("Song - Single"), "Song");
    assert_eq!(simplify_title("Song - Live (2004)"), "Song");
    assert_eq!(simplify_title("Song (Live) - Single"), "Song");
    assert_eq!(simplify_title("Song (Live (2004) Version)"), "Song");
    assert_eq!(simplify_title("Song (Live) (Remastered) "), "Song");
    assert_eq!(simplify_title("Song (A - B)"), "Song");
    assert_eq!(simplify_title("Song (Live"), "Song");
    assert_eq!(simplify_title("Song (Live))"), "Song");
}

#[test]
fn parentheticals_that_do_not_trail_are_kept() {
    let dock = "(Sittin' On) The Dock of the Bay";
    assert_eq!(simplify_title(dock), dock);
    assert_eq!(simplify_title("(Sittin' On) The Dock of the Bay - Mono (1968)"), dock);
    assert_eq!(simplify_title("(A - B) Song"), "(A - B) Song");
    assert_eq!(simplify_title("(A - B) Song (Live) - Single"), "(A - B) Song");
    assert_eq!(simplify_title("A (B) C"), "A (B) C");
    assert_eq!(simplify_title("A (B - C) D (E)"), "A (B - C) D");
}

#[test]
fn nothing_is_left_of_a_title_in_parentheses() {
    for s in ["(Intro)", "(Intro) (Live)", "(Intro) - Live", "(Intro", " ((Intro)) ", "(A - B)"] {
        assert_eq!(simplify_title(s), "");
    }
}

#[test]
fn a_parenthetical_at_the_end_makes_no_difference() {
    for a in ["", " ", "Song ", "A (B) C", "(A) B ", "A - B", "A (B", "(A) ", "(A", "A)", ":( x"] {
        for b in ["", "Live", " - ", "é"] {
            assert_eq!(simplify_title(&format!("{a}({b})")), simplify_title(a));
        }
    }
}

#[test]
fn simple_titles_are_only_trimmed() {
    assert_eq!(simplify_title("  Song  "), "Song");
    assert_eq!(simplify_title("Semi-Charmed Life"), "Semi-Charmed Life");
    assert_eq!(simplify_title(" - Song"), "");
    assert_eq!(simplify_title("Café"), "Café");
    assert_eq!(simplify_title(""), "");
}

#[test]
fn simplifying_twice_is_simplifying_once() {
    for s in [
        "A - B - C", "A (B) C", "  A  ", "A -  - B", "-(-)-", " (A) (B) ", "(A)(B)(C)", "((A) B", "A) (B",
    ] {
        let once = simplify_title(s);
        assert_eq!(simplify_title(&once), once);
    }
}
