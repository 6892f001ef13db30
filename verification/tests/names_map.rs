use please::names::FunctionNameMap;

#[test]
fn test_function_convert_to_valid_chars() {
    let cases = [
        ("get weather", "get_weather"),
        ("get-weather", "get_weather"),
        ("get.weather", "get_weather"),
        ("get weather!", "get_weather"),
        ("a\u{1fae0}bc", "abc"),
        ("\u{1fae0}", "unnamed"),
        ("123", "_123"),
        ("$", "$"),
        (
            "\u{1d4f8}\u{1d4f5}\u{1d4f5}\u{1d4ea}\u{1d4f6}\u{1d4ea}",
            "\u{1d4f8}\u{1d4f5}\u{1d4f5}\u{1d4ea}\u{1d4f6}\u{1d4ea}",
        ),
        ("\u{24de}\u{24db}\u{24db}\u{24d0}\u{24dc}\u{24d0}123", "_123"),
    ];
    for (name, want) in cases {
        let map = FunctionNameMap::new();
        let got = map.convert_to_valid_chars(name);
        assert_eq!(got, want);
    }
}

#[test]
fn test_function_convert_and_add() {
    let tests = vec![
        (
            "basic dupe handling",
            vec!["get weather", "get weather"],
            vec!["get_weather", "get_weather_2"],
        ),
        (
            "dupes from different user-specified names",
            vec!["get weather", "get_weather", "get-weather"],
            vec!["get_weather", "get_weather_2", "get_weather_3"],
        ),
        (
            "non dupes after dupes",
            vec![
                "get weather",
                "get_weather",
                "get-weather",
                "something-different",
            ],
            vec![
                "get_weather",
                "get_weather_2",
                "get_weather_3",
                "something_different",
            ],
        ),
        (
            "multiple sets of dupes",
            vec!["a", "a", "b", "a", "a", "b", "a"],
            vec!["a", "a_2", "b", "a_3", "a_4", "b_2", "a_5"],
        ),
        (
            "built-in functions should not be renamed",
            vec![
                "browser.open",
                "python",
                "not.a.built-in.function",
                "browser.not_a_real_built_in",
            ],
            vec![
                "browser.open",
                "python",
                "not_a_built_in_function",
                "browser_not_a_real_built_in",
            ],
        ),
    ];

    for (_name, input, want) in tests {
        let mut map = FunctionNameMap::new();
        for (i, in_name) in input.iter().enumerate() {
            let got = map.convert_and_add(in_name);
            assert_eq!(got, want[i]);
            assert_eq!(map.converted_for_original(in_name), Some(want[i].to_string()));
            assert_eq!(map.original_from_converted(want[i]), *in_name);
        }
    }
}
