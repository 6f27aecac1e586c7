use daudio::plugin_args::{parse_args, validate, Arg, ArgValue, ArgsError, Field, PluginKind};

fn s(key: &str, v: &str) -> Arg {
    Arg { key: key.to_string(), value: ArgValue::Str(v.to_string()) }
}
fn b(key: &str, v: bool) -> Arg {
    Arg { key: key.to_string(), value: ArgValue::Bool(v) }
}
fn l(key: &str, v: &[&str]) -> Arg {
    Arg { key: key.to_string(), value: ArgValue::Idents(v.iter().map(|x| x.to_string()).collect()) }
}

fn base() -> Vec<Arg> {
    vec![
        s("name", "daudio Filter"),
        s("vendor", "daudio"),
        s("clap_id", "com.daudio.filter"),
        s("vst3_id", "daudioFilter0001"),
        l("clap_features", &["AudioEffect", "Stereo"]),
        l("vst3_categories", &["Fx"]),
    ]
}

#[test]
fn complete_arguments_parse() {
    let mut args = base();
    args.push(s("url", "https://example.com"));
    args.push(b("midi", true));
    let p = parse_args(args).unwrap();
    assert_eq!(p.name, "daudio Filter");
    assert_eq!(p.vendor, "daudio");
    assert_eq!(p.url.as_deref(), Some("https://example.com"));
    assert_eq!(p.email, None);
    assert_eq!(p.clap_description, None);
    assert_eq!(p.clap_features, vec!["AudioEffect".to_string(), "Stereo".to_string()]);
    assert_eq!(p.vst3_categories, vec!["Fx".to_string()]);
    assert!(p.midi && !p.midi_out);
    assert_eq!(validate(&p), Ok(PluginKind::Synth));
}

#[test]
fn duplicate_key_is_refused() {
    let mut args = base();
    args.push(s("name", "again"));
    let e = parse_args(args).err().unwrap();
    assert_eq!(e, ArgsError::Duplicate("name".to_string()));
    assert_eq!(e.message(), "duplicate `daudio_plugin` key `name`");
}

#[test]
fn unknown_or_mistyped_key_is_refused() {
    let mut args = base();
    args.insert(1, b("name", true));
    let e = parse_args(args).err().unwrap();
    // The mistyped entry comes before the duplicate that would follow it.
    assert_eq!(e, ArgsError::Unknown("name".to_string()));
    let mut args = base();
    args.push(s("colour", "blue"));
    let e = parse_args(args).err().unwrap();
    assert_eq!(e.message(), "unknown or mistyped `daudio_plugin` key `colour`");
}

#[test]
fn first_missing_required_key_is_reported() {
    let args = vec![s("vendor", "v"), l("clap_features", &[])];
    let e = parse_args(args).err().unwrap();
    assert_eq!(e, ArgsError::Missing(Field::Name));
    assert_eq!(e.message(), "`daudio_plugin` requires a `name` key");
    let args = vec![s("name", "n"), s("vendor", "v"), s("clap_id", "c"), s("vst3_id", "0123456789abcdef")];
    assert_eq!(parse_args(args).err().unwrap(), ArgsError::Missing(Field::ClapFeatures));
}

#[test]
fn vst3_id_must_be_sixteen_ascii_bytes() {
    let mut args = base();
    args[3] = s("vst3_id", "tooShort");
    let p = parse_args(args).unwrap();
    let e = validate(&p).err().unwrap();
    assert_eq!(e, ArgsError::BadVst3Id);
    assert_eq!(e.message(), "`vst3_id` must be exactly 16 ASCII bytes");
    let mut args = base();
    args[3] = s("vst3_id", "daudioFilter000é");
    assert_eq!(validate(&parse_args(args).unwrap()), Err(ArgsError::BadVst3Id));
}

#[test]
fn synth_and_analyzer_modes_exclude_each_other() {
    let mut args = base();
    args.push(b("midi", true));
    args.push(b("midi_out", true));
    let e = validate(&parse_args(args).unwrap()).err().unwrap();
    assert_eq!(e, ArgsError::MidiAndMidiOut);
    assert_eq!(e.message(), "`daudio_plugin` cannot set both `midi` and `midi_out`");
}

#[test]
fn modes_select_the_plugin_kind() {
    assert_eq!(validate(&parse_args(base()).unwrap()), Ok(PluginKind::Effect));
    let mut args = base();
    args.push(b("midi_out", true));
    args.push(b("midi", false));
    assert_eq!(validate(&parse_args(args).unwrap()), Ok(PluginKind::AudioToMidi));
    assert_eq!(Field::Vst3Categories.key(), "vst3_categories");
}
