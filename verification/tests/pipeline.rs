use textnorm::collapse::remove_text_reps;
use textnorm::dialogue::extract_dialogue;
use textnorm::markup::strip_tags;
use textnorm::pipeline::process_text;
use textnorm::script::is_jp;

#[test]
fn extract_dialogue_complex() {
    let text = "「ゲームは大きく分けて、「更新」「軍備」「内政」「政略」「作戦」「合戦」６つのフェ<color=#ffffff42>イ</color>「ゲームは大きく分けて、「更新」「軍備」「内政」「政略」「作戦」「合戦」６つのフェイズに分<color=#ffffff68>か</color>「ゲームは大きく分けて、「更新」「軍備」「内政」「政略」「作戦」「合戦」６つのフェイズに分かれてい<color=#ffffff8e>ま</color>「ゲームは大きく分けて、「更新」「軍備」「内政」「政略」「作戦」「合戦」６つのフェイズに分かれています<color=#ffffffff>」</color>";

    let expected_result = &text[..text.len() - 8];

    let result = extract_dialogue(text).expect("Extract dialogue");
    assert_eq!(result, expected_result);

    let expected_result = "「ゲームは大きく分けて、「更新」「軍備」「内政」「政略」「作戦」「合戦」６つのフェイズに分かれています」";
    let result = process_text(text.to_string()).expect("To process text");
    assert_eq!(result, expected_result);
}

#[test]
fn extract_text() {
    let text = "この麗しき御方こそが、甲斐この麗しき御方こそが、甲斐源氏の本この麗しき御方こそが、甲斐源氏の本流たる武この麗しき御方こそが、甲斐源氏の本流たる武田家の第この麗しき御方こそが、甲斐源氏の本流たる武田家の第十九代目この麗しき御方こそが、甲斐源氏の本流たる武田家の第十九代目の当主。武この麗しき御方こそが、甲斐源氏の本流たる武田家の第十九代目の当主。武田信玄そこの麗しき御方こそが、甲斐源氏の本流たる武田家の第十九代目の当主。武田信玄その人だ。この麗しき御方こそが、甲斐源氏の本流たる武田家の第十九代目の当主。武田信玄その人だ。".to_string();

    let expected_result = "この麗しき御方こそが、甲斐源氏の本流たる武田家の第十九代目の当主。武田信玄その人だ。";

    let result = remove_text_reps(text);
    assert_eq!(result, expected_result);
}

#[test]
fn extract_text2() {
    let text = "手元に広げられた紙面に、ゆるり手元に広げられた紙面に、ゆるりと視線を手元に広げられた紙面に、ゆるりと視線を這わせる一手元に広げられた紙面に、ゆるりと視線を這わせる一人の 佳人手元に広げられた紙面に、ゆるりと視線を這わせる一人の 佳人。蝋燭の手元に広げられた紙面に、ゆるりと視線を這わせる一人の 佳人。蝋燭の淡い光に手元に広げられた紙面に、ゆるりと視線を這わせる一人の 佳人。蝋燭の淡い光に照らされ手元に広げられた紙面に、ゆるりと視線を這わせる一人の 佳人。蝋燭の淡い光に照らされるその横手元に広げられた紙面に、ゆるりと視線を這わせる一人の 佳人。蝋燭の淡い光に照らされるその横顔を、俺手元に広げられた紙面に、ゆるりと視線を這わせる一人の 佳人。蝋燭の淡い光に照らされるその横顔を、俺は無言で 見手元に広げられた紙面に、ゆるりと視線を這わせる一人の 佳人。蝋燭の淡い光に照らされるその横顔を、俺は無言で 見守り続け手元に広げられた紙面に、ゆるりと視線を這わせる一人の 佳人。蝋燭の淡い光に照らされるその横顔を、俺は無言で 見守り続ける。";

    let expected_result = "手元に広げられた紙面に、ゆるりと視線を這わせる一人の 佳人。蝋燭の淡い光に照らされるその横顔を、俺は無言で 見守り続ける。";

    let result = remove_text_reps(text.to_string());
    assert_eq!(result, expected_result);
}

#[test]
fn extract_text3() {
    let text = "御館様の想定通り、信濃勢は御館様の想定通り、信濃勢は徹底抗戦の御館様の想定通り、信濃勢は徹底抗戦の構えを見御館様の想定通り、信濃勢は徹底抗戦の構えを見せた。";

    let expected_result = "御館様の想定通り、信濃勢は徹底抗戦の構えを見せた。";
    let result = remove_text_reps(text.to_string());
    assert_eq!(result, expected_result);
}

#[test]
fn pipeline_strips_and_collapses() {
    let text = "「a<color=#fff>b</color>「a<color=#fff>b</color>c」";
    let result = process_text(text.to_string());
    assert_eq!(result, Some("「abc」".to_string()));
}

#[test]
fn script_gate_rejects_non_target_text() {
    assert_eq!(process_text("hello <b>world</b>".to_string()), None);
    assert_eq!(process_text(String::new()), None);
    assert!(!is_jp("hello world"));
    assert!(!is_jp(""));
    assert!(is_jp("この"));
}

#[test]
fn markup_gate_rejects_tag_free_text() {
    assert_eq!(process_text("こんにちは".to_string()), None);
    assert_eq!(process_text("あ<>い".to_string()), None);
}

#[test]
fn extractor_missing_delimiters_falls_back() {
    assert_eq!(extract_dialogue("あ<b>い"), None);
    let result = process_text("あ<b>い".to_string());
    assert_eq!(result, Some("あい".to_string()));
}

#[test]
fn extractor_needs_text_after_close_delimiter() {
    assert_eq!(extract_dialogue("「あ」"), None);
    assert_eq!(extract_dialogue("x「あ」x"), Some("「あ」".to_string()));
    assert_eq!(extract_dialogue("（あ」x"), Some("（あ」".to_string()));
}

#[test]
fn stripper_signals_when_nothing_was_removed() {
    assert_eq!(strip_tags("あいう"), None);
    assert_eq!(strip_tags("あ<>い"), None);
    assert_eq!(strip_tags("あ<notag い"), None);
    assert_eq!(strip_tags("あ<tag>い"), Some("あい".to_string()));
    assert_eq!(strip_tags("<x>"), Some(String::new()));
}

#[test]
fn pipeline_removes_line_breaks() {
    let text = "あ<b>い\nう\r\nえ";
    let result = process_text(text.to_string());
    assert_eq!(result, Some("あいうえ".to_string()));
}
