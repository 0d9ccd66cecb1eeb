use textnorm::collapse::remove_text_reps;

#[test]
fn utils_extract_text() {
    let text = "この麗しき御方こそが、甲斐この麗しき御方こそが、甲斐源氏の本この麗しき御方こそが、甲斐源氏の本流たる武この麗しき御方こそが、甲斐源氏の本流たる武田家の第この麗しき御方こそが、甲斐源氏の本流たる武田家の第十九代目この麗しき御方こそが、甲斐源氏の本流たる武田家の第十九代目の当主。武この麗しき御方こそが、甲斐源氏の本流たる武田家の第十九代目の当主。武田信玄そこの麗しき御方こそが、甲斐源氏の本流たる武田家の第十九代目の当主。武田信玄その人だ。この麗しき御方こそが、甲斐源氏の本流たる武田家の第十九代目の当主。武田信玄その人だ。".to_string();

    let expected_result = "この麗しき御方こそが、甲斐源氏の本流たる武田家の第十九代目の当主。武田信玄その人だ。";

    let result = remove_text_reps(text);
    assert_eq!(result, expected_result);
}

#[test]
fn utils_extract_text2() {
    let text = "手元に広げられた紙面に、ゆるり手元に広げられた紙面に、ゆるりと視線を手元に広げられた紙面に、ゆるりと視線を這わせる一手元に広げられた紙面に、ゆるりと視線を這わせる一人の 佳人手元に広げられた紙面に、ゆるりと視線を這わせる一人の 佳人。蝋燭の手元に広げられた紙面に、ゆるりと視線を這わせる一人の 佳人。蝋燭の淡い光に手元に広げられた紙面に、ゆるりと視線を這わせる一人の 佳人。蝋燭の淡い光に照らされ手元に広げられた紙面に、ゆるりと視線を這わせる一人の 佳人。蝋燭の淡い光に照らされるその横手元に広げられた紙面に、ゆるりと視線を這わせる一人の 佳人。蝋燭の淡い光に照らされるその横顔を、俺手元に広げられた紙面に、ゆるりと視線を這わせる一人の 佳人。蝋燭の淡い光に照らされるその横顔を、俺は無言で 見手元に広げられた紙面に、ゆるりと視線を這わせる一人の 佳人。蝋燭の淡い光に照らされるその横顔を、俺は無言で 見守り続け手元に広げられた紙面に、ゆるりと視線を這わせる一人の 佳人。蝋燭の淡い光に照らされるその横顔を、俺は無言で 見守り続ける。";

    let expected_result = "手元に広げられた紙面に、ゆるりと視線を這わせる一人の 佳人。蝋燭の淡い光に照らされるその横顔を、俺は無言で 見守り続ける。";

    let result = remove_text_reps(text.to_string());
    assert_eq!(result, expected_result);
}

#[test]
fn utils_extract_text3() {
    let text = "御館様の想定通り、信濃勢は御館様の想定通り、信濃勢は徹底抗戦の御館様の想定通り、信濃勢は徹底抗戦の構えを見御館様の想定通り、信濃勢は徹底抗戦の構えを見せた。";

    let expected_result = "御館様の想定通り、信濃勢は徹底抗戦の構えを見せた。";
    let result = remove_text_reps(text.to_string());
    assert_eq!(result, expected_result);
}

#[test]
fn collapse_repeating_unit() {
    let result = remove_text_reps("このテキストこのテキストです".to_string());
    assert_eq!(result, "このテキストです");
}

#[test]
fn collapse_without_pattern_is_identity() {
    assert_eq!(remove_text_reps("abcdef".to_string()), "abcdef");
    assert_eq!(remove_text_reps("このテキストです".to_string()), "このテキストです");
}

#[test]
fn collapse_short_inputs_unchanged() {
    assert_eq!(remove_text_reps(String::new()), "");
    assert_eq!(remove_text_reps("あ".to_string()), "あ");
}

#[test]
fn collapse_doubled_prefix_keeps_last_copy() {
    assert_eq!(remove_text_reps("xyxyxyz".to_string()), "xyz");
    assert_eq!(remove_text_reps("ここ".to_string()), "こ");
}
