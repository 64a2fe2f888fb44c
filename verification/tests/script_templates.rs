use mofa_studio::script_templates::{ScriptTemplate, TemplateType};
use mofa_studio::tts_batch::ScriptSegmenter;

#[test]
fn template_names_and_descriptions() {
    assert_eq!(TemplateType::TwoPersonInterview.display_name(), "2-Person Interview");
    assert_eq!(TemplateType::ThreePersonDiscussion.display_name(), "3-Person Discussion");
    assert_eq!(TemplateType::Narrative.display_name(), "Narrative / Storytelling");
    assert_eq!(TemplateType::TwoPersonInterview.description(), "Host and guest discussion format");
    assert_eq!(TemplateType::ThreePersonDiscussion.description(), "Host with two guests panel format");
    assert_eq!(TemplateType::Narrative.description(), "Single narrator storytelling format");
}

#[test]
fn all_templates_in_order() {
    let all = ScriptTemplate::all_templates();
    assert_eq!(all.len(), 3);
    assert_eq!(all[0].template_type, TemplateType::TwoPersonInterview);
    assert_eq!(all[1].template_type, TemplateType::ThreePersonDiscussion);
    assert_eq!(all[2].template_type, TemplateType::Narrative);
    let t = ScriptTemplate::get_template(TemplateType::Narrative);
    assert_eq!(t.content, ScriptTemplate::narrative_template());
    assert!(t.content.starts_with("host: Today, I want to tell you a story about [TOPIC]."));
}

#[test]
fn templates_are_scripts_of_their_speakers() {
    let segmenter = ScriptSegmenter::new().unwrap();
    let two = segmenter.segment_script(&ScriptTemplate::two_person_template()).unwrap();
    assert_eq!(two.len(), 11);
    assert!(two.iter().all(|s| s.speaker == "host" || s.speaker == "guest1"));
    let three = segmenter.segment_script(&ScriptTemplate::three_person_template()).unwrap();
    assert_eq!(three.len(), 19);
    assert!(three.iter().any(|s| s.speaker == "guest2"));
    let narrative = segmenter.segment_script(&ScriptTemplate::narrative_template()).unwrap();
    assert_eq!(narrative.len(), 9);
    assert!(narrative.iter().all(|s| s.speaker == "host"));
}
