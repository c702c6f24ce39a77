use paintcore::math::{parse_tex_like, tex_like_plain_text, MathScript, MathToken};

#[test]
fn parse_tex_like_splits_super_and_subscripts() {
    assert_eq!(
        parse_tex_like("x^{2}_i"),
        vec![
            MathToken {
                text: "x".to_string(),
                script: MathScript::Normal,
            },
            MathToken {
                text: "2".to_string(),
                script: MathScript::Superscript,
            },
            MathToken {
                text: "i".to_string(),
                script: MathScript::Subscript,
            },
        ]
    );
    assert_eq!(tex_like_plain_text("x^{2}_i"), "x2i");
}

#[test]
fn empty_groups_and_trailing_markers_give_no_token() {
    assert_eq!(
        parse_tex_like("a^{}b^"),
        vec![
            MathToken {
                text: "a".to_string(),
                script: MathScript::Normal,
            },
            MathToken {
                text: "b".to_string(),
                script: MathScript::Normal,
            },
        ]
    );
}

#[test]
fn unclosed_group_runs_to_the_end() {
    assert_eq!(
        parse_tex_like("e_{ij"),
        vec![
            MathToken {
                text: "e".to_string(),
                script: MathScript::Normal,
            },
            MathToken {
                text: "ij".to_string(),
                script: MathScript::Subscript,
            },
        ]
    );
    assert_eq!(tex_like_plain_text("e_{ij"), "eij");
}

#[test]
fn marker_after_marker_is_taken_as_text() {
    assert_eq!(
        parse_tex_like("^^"),
        vec![MathToken {
            text: "^".to_string(),
            script: MathScript::Superscript,
        }]
    );
    assert_eq!(tex_like_plain_text("α^β"), "αβ");
}
