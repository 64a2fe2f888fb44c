use mofa_studio::apps::{MoFaCastApp, MoFaHelloApp};
use mofa_studio::audio_mixer::AudioMixer;

#[test]
fn app_descriptors() {
    let cast = MoFaCastApp::info();
    assert_eq!(cast.name, "MoFA Cast");
    assert_eq!(cast.id, "mofa-cast");
    assert_eq!(cast.description, "Transform your optimized scripts into multi-voice podcast audio with local TTS");
    let hello = MoFaHelloApp::info();
    assert_eq!(hello.name, "Hello World");
    assert_eq!(hello.id, "mofa-hello");
    assert_eq!(hello.description, "A simple Hello World app");
    let _mixer = AudioMixer::new();
}
