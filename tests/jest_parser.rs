use ghtool::jest::{find_fail_start, JestLogParser};
use ghtool::normalize::{find_next_non_ansi_char, has_escape_sequence};
use ghtool::record::CheckError;

fn concat_lines(parts: &[&str]) -> String {
    parts.concat()
}

#[test]
fn jest_test_extract_failing_tests() {
        let logs = concat_lines(&[
            "\n",
            "2021-05-04T18:24:29.000Z FAIL src/components/MyComponent/MyComponent.test.tsx\n",
            "2021-05-04T18:24:29.000Z   ● Test suite failed to run\n",
            "2021-05-04T18:24:29.000Z     TypeError: Cannot read property 'foo' of undefined\n",
            "2021-05-04T18:24:29.000Z\n",
            "2021-05-04T18:24:29.000Z       1 | import React from 'react';\n",
            "2021-05-04T18:24:29.000Z PASS src/components/MyComponent/MyComponent.test.tsx\n",
            "2021-05-04T18:24:29.000Z FAIL src/components/MyComponent/MyComponent2.test.tsx\n",
            "2021-05-04T18:24:29.000Z   ● Test suite failed to run\n",
            "2021-05-04T18:24:29.000Z     TypeError: Cannot read property 'foo' of undefined\n",
            "2021-05-04T18:24:29.000Z\n",
            "2021-05-04T18:24:29.000Z       1 | import React from 'react';\n",
            "2021-05-04T18:24:29.000Z PASS src/components/MyComponent/MyComponent2.test.tsx",
        ]);

        let failing_tests = JestLogParser::parse(&logs);
        assert_eq!(
            failing_tests,
            vec![
                CheckError {
                    path: "src/components/MyComponent/MyComponent.test.tsx".to_string(),
                    lines: vec![
                        "FAIL src/components/MyComponent/MyComponent.test.tsx".to_string(),
                        "  ● Test suite failed to run".to_string(),
                        "    TypeError: Cannot read property 'foo' of undefined".to_string(),
                        "".to_string(),
                        "      1 | import React from 'react';".to_string(),
                    ]
                },
                CheckError {
                    path: "src/components/MyComponent/MyComponent2.test.tsx".to_string(),
                    lines: vec![
                        "FAIL src/components/MyComponent/MyComponent2.test.tsx".to_string(),
                        "  ● Test suite failed to run".to_string(),
                        "    TypeError: Cannot read property 'foo' of undefined".to_string(),
                        "".to_string(),
                        "      1 | import React from 'react';".to_string(),
                    ]
                },
            ]
        );
    }

#[test]
fn test_extract_failing_tests_2() {
        let logs = concat_lines(&[
            "\n",
            "2023-06-28T21:11:38.9421220Z > ghtool-test-repo@1.0.0 test\n",
            "2023-06-28T21:11:38.9428514Z > jest ./src --color --ci --shard=1/2\n",
            "2023-06-28T21:11:38.9429089Z \n",
            "2023-06-28T21:11:43.1619050Z  FAIL  src/test2.test.ts\n",
            "2023-06-28T21:11:43.1623893Z   test2\n",
            "2023-06-28T21:11:43.1629746Z     ✓ succeeds (3 ms)\n",
            "2023-06-28T21:11:43.1630396Z     ✕ fails (5 ms)\n",
            "2023-06-28T21:11:43.1630949Z \n",
            "2023-06-28T21:11:43.1631448Z   ● test2 › fails\n",
            "2023-06-28T21:11:43.1631750Z \n",
            "2023-06-28T21:11:43.1632455Z     expect(received).toBe(expected) // Object.is equality\n",
            "2023-06-28T21:11:43.1633081Z \n",
            "2023-06-28T21:11:43.1633381Z     Expected: false\n",
            "2023-06-28T21:11:43.1633800Z     Received: true\n",
            "2023-06-28T21:11:43.1634250Z \n",
            "2023-06-28T21:11:43.1634753Z        5 |\n",
            "2023-06-28T21:11:43.1635444Z        6 |   it(\"fails\", () => {\n",
            "2023-06-28T21:11:43.1636318Z     >  7 |     expect(true).toBe(false);\n",
            "2023-06-28T21:11:43.1637060Z          |                  ^\n",
            "2023-06-28T21:11:43.1642719Z        8 |   });\n",
            "2023-06-28T21:11:43.1647216Z        9 | });\n",
            "2023-06-28T21:11:43.1648590Z       10 |\n",
            "2023-06-28T21:11:43.1649650Z \n",
            "2023-06-28T21:11:43.1651496Z       at Object.<anonymous> (src/test2.test.ts:7:18)\n",
            "2023-06-28T21:11:43.1652032Z \n",
            "2023-06-28T21:11:43.1664383Z Test Suites: 1 failed, 1 total\n",
            "2023-06-28T21:11:43.1665139Z Tests:       1 failed, 1 passed, 2 total\n",
            "2023-06-28T21:11:43.1665683Z Snapshots:   0 total\n",
            "2023-06-28T21:11:43.1666152Z Time:        3.464 s\n",
            "2023-06-28T21:11:43.1666769Z Ran all test suites matching /.\\/src/i.",
        ]);

        let failing_tests = JestLogParser::parse(&logs);
        assert_eq!(
            failing_tests,
            vec![CheckError {
                path: "src/test2.test.ts".to_string(),
                lines: vec![
                    "FAIL  src/test2.test.ts".to_string(),
                    " test2".to_string(),
                    "   ✓ succeeds (3 ms)".to_string(),
                    "   ✕ fails (5 ms)".to_string(),
                    "".to_string(),
                    " ● test2 › fails".to_string(),
                    "".to_string(),
                    "   expect(received).toBe(expected) // Object.is equality".to_string(),
                    "".to_string(),
                    "   Expected: false".to_string(),
                    "   Received: true".to_string(),
                    "".to_string(),
                    "      5 |".to_string(),
                    "      6 |   it(\"fails\", () => {".to_string(),
                    "   >  7 |     expect(true).toBe(false);".to_string(),
                    "        |                  ^".to_string(),
                    "      8 |   });".to_string(),
                    "      9 | });".to_string(),
                    "     10 |".to_string(),
                    "".to_string(),
                    "     at Object.<anonymous> (src/test2.test.ts:7:18)".to_string(),
                ],
            },]
        );
    }

#[test]
fn jest_test_extract_failing_test_files() {
        let logs = concat_lines(&[
            "\n",
            "2021-05-04T18:24:29.000Z FAIL src/components/MyComponent/MyComponent.test.tsx\n",
            "2021-05-04T18:24:29.000Z   ● Test suite failed to run\n",
            "2021-05-04T18:24:29.000Z     TypeError: Cannot read property 'foo' of undefined\n",
            "2021-05-04T18:24:29.000Z\n",
            "2021-05-04T18:24:29.000Z       1 | import React from 'react';\n",
            "2021-05-04T18:24:29.000Z PASS src/components/MyComponent/MyComponent2.test.tsx\n",
            "2021-05-04T18:24:29.000Z FAIL src/components/MyComponent/MyComponent3.test.tsx\n",
            "2021-05-04T18:24:29.000Z   ● Test suite failed to run\n",
            "2021-05-04T18:24:29.000Z     TypeError: Cannot read property 'foo' of undefined\n",
            "2021-05-04T18:24:29.000Z\n",
            "2021-05-04T18:24:29.000Z       1 | import React from 'react';\n",
            "2021-05-04T18:24:29.000Z PASS src/components/MyComponent/MyComponent4.test.tsx",
        ]);

        let failing_tests = JestLogParser::parse(&logs);
        let failing_test_files: Vec<String> = failing_tests
            .iter()
            .map(|jest_path| jest_path.path.clone())
            .collect();

        assert_eq!(
            failing_test_files,
            vec![
                "src/components/MyComponent/MyComponent.test.tsx".to_string(),
                "src/components/MyComponent/MyComponent3.test.tsx".to_string(),
            ]
        );
    }

#[test]
fn test_remove_duplicate_check_errors() {
        let logs = concat_lines(&[
            "\n",
            "2023-09-14T12:22:30.2648458Z\n",
            "2023-09-14T12:22:30.2648458Z FAIL src/components/MyComponent/MyComponent3.test.tsx\n",
            "2023-09-14T12:22:30.2648458Z   ● Test suite failed to run\n",
            "2023-09-14T12:22:30.2648458Z     TypeError: Cannot read property 'foo' of undefined\n",
            "2023-09-14T12:22:30.2648458Z\n",
            "2023-09-14T12:22:30.2648458Z       1 | import React from 'react';\n",
            "2023-09-14T12:22:30.2648458Z \n",
            "2023-09-14T12:22:30.2649146Z Summary of all failing tests\n",
            "2023-09-14T12:22:30.2648458Z FAIL src/components/MyComponent/MyComponent3.test.tsx\n",
            "2023-09-14T12:22:30.2648458Z   ● Test suite failed to run\n",
            "2023-09-14T12:22:30.2648458Z     TypeError: Cannot read property 'foo' of undefined\n",
            "2023-09-14T12:22:30.2648458Z\n",
            "2023-09-14T12:22:30.2648458Z       1 | import React from 'react';\n",
            "2023-09-14T12:22:30.2673693Z \n",
            "2023-09-14T12:22:30.2673711Z \n",
            "2023-09-14T12:22:30.2678119Z Test Suites: 1 failed, 67 passed, 68 total\n",
            "2023-09-14T12:22:30.2679079Z Tests:       1 failed, 469 passed, 470 total\n",
            "2023-09-14T12:22:30.2680281Z Snapshots:   60 passed, 60 total\n",
            "2023-09-14T12:22:30.2680933Z Time:        216.339 s\n",
            "        ",
        ]);

        let failing_tests = JestLogParser::parse(&logs);
        assert_eq!(failing_tests.len(), 1);
    }

#[test]
fn test_jest_in_docker() {
        let logs = concat_lines(&[
            "\n",
            "2023-12-14T12:24:25.7014935Z \u{1b}[36mtest_1            |\u{1b}[0m $ jest -c jest.config.test.js\n",
            "2023-12-14T12:24:43.7723478Z \u{1b}[36mtest_1            |\u{1b}[0m PASS src/a.test.ts (16.764 s)\n",
            "2023-12-14T12:24:53.1189316Z \u{1b}[36mtest_1            |\u{1b}[0m FAIL src/b.test.ts\n",
            "2023-12-14T12:24:53.1486488Z \u{1b}[36mtest_1            |\u{1b}[0m   ● test › return test things\n",
            "2023-12-14T12:24:53.1488314Z \u{1b}[36mtest_1            |\u{1b}[0m\n",
            "2023-12-14T12:24:53.1489247Z \u{1b}[36mtest_1            |\u{1b}[0m     expect(received).toMatchObject(expected)\n",
            "2023-12-14T12:24:53.1490238Z \u{1b}[36mtest_1            |\u{1b}[0m\n",
            "2023-12-14T12:24:53.1490994Z \u{1b}[36mtest_1            |\u{1b}[0m     - Expected  - 1\n",
            "2023-12-14T12:24:53.1491871Z \u{1b}[36mtest_1            |\u{1b}[0m     + Received  + 0\n",
            "2023-12-14T12:24:53.1492657Z \u{1b}[36mtest_1            |\u{1b}[0m\n",
            "2023-12-14T12:24:53.1493405Z \u{1b}[36mtest_1            |\u{1b}[0m     @@ -17,9 +17,8 @@\n",
            "2023-12-14T12:24:53.1662308Z \u{1b}[36mtest_1            |\u{1b}[0m     -       \"testId\": undefined,\n",
            "2023-12-14T12:24:53.1684564Z \u{1b}[36mtest_1            |\u{1b}[0m           },\n",
            "2023-12-14T12:24:53.1724498Z \u{1b}[36mtest_1            |\u{1b}[0m         },\n",
            "2023-12-14T12:24:53.1764019Z \u{1b}[36mtest_1            |\u{1b}[0m       ]\n",
            "2023-12-14T12:24:53.1788159Z \u{1b}[36mtest_1            |\u{1b}[0m\n",
            "2023-12-14T12:24:53.1790147Z \u{1b}[36mtest_1            |\u{1b}[0m     > 62 |     expect(result).toMatchObject([\n",
            "2023-12-14T12:24:53.1790859Z \u{1b}[36mtest_1            |\u{1b}[0m          |                    ^\n",
            "2023-12-14T12:24:53.1794182Z \u{1b}[36mtest_1            |\u{1b}[0m\n",
            "2023-12-14T12:24:53.1794946Z \u{1b}[36mtest_1            |\u{1b}[0m       at Object.<anonymous> (src/a.test.ts:62:20)\n",
            "2023-12-14T12:24:53.1841737Z \u{1b}[36mtest_1            |\u{1b}[0m\n",
            "2023-12-14T12:24:53.4683252Z \u{1b}[36mtest_1            |\u{1b}[0m PASS src/b.test.ts\n",
            "        ",
        ]);

        let failing_tests = JestLogParser::parse(&logs);

        assert_eq!(
            failing_tests,
            vec![CheckError {
                path: "src/b.test.ts".to_string(),
                lines: vec![
                    "FAIL src/b.test.ts".to_string(),
                    "  ● test › return test things".to_string(),
                    "".to_string(),
                    "    expect(received).toMatchObject(expected)".to_string(),
                    "".to_string(),
                    "    - Expected  - 1".to_string(),
                    "    + Received  + 0".to_string(),
                    "".to_string(),
                    "    @@ -17,9 +17,8 @@".to_string(),
                    "    -       \"testId\": undefined,".to_string(),
                    "          },".to_string(),
                    "        },".to_string(),
                    "      ]".to_string(),
                    "".to_string(),
                    "    > 62 |     expect(result).toMatchObject([".to_string(),
                    "         |                    ^".to_string(),
                    "".to_string(),
                    "      at Object.<anonymous> (src/a.test.ts:62:20)".to_string(),
                ],
            }]
        );
    }

#[test]
fn test_find_fail_position() {
        let test_cases = vec![
            (
                "2023-12-14T12:24:53.1189316Z \u{1b}[36mtest_1            |\u{1b}[0m FAIL src/b.test.ts",
                Some(58),
            ),
            (
                "2024-05-11T20:45:16.0032874Z \u{1b}[0m\u{1b}[7m\u{1b}[1m\u{1b}[31m FAIL \u{1b}[39m\u{1b}[22m\u{1b}[27m\u{1b}[0m \u{1b}[2msrc/\u{1b}[22m\u{1b}[1mtest2.test.ts\u{1b}[22m (\u{1b}[0m\u{1b}[1m\u{1b}[41m61.458 s\u{1b}[49m\u{1b}[22m\u{1b}[0m)",
                Some(29),
            ),
            (
                "2024-05-29T08:34:09.8655201Z   \u{1b}[1m\u{1b}[31m\u{1b}[7mFAIL\u{1b}[27m\u{1b}[39m\u{1b}[22m src/a.spec.tsx (\u{1b}[31m\u{1b}[7m14728 ms\u{1b}[27m\u{1b}[39m)",
                Some(31),
            ),
            (
                "2024-05-11T20:45:16.0032874Z \u{1b}[0m\u{1b}[7m\u{1b}[1m\u{1b}[31m FAIL \u{1b}[39m\u{1b}[22m\u{1b}[27m\u{1b}[0m \u{1b}[2msrc/\u{1b}[22m\u{1b}[1mtest2.test.ts\u{1b}[22m (\u{1b}[0m\u{1b}[1m\u{1b}[41m61.458 s\u{1b}[49m\u{1b}[22m\u{1b}[0m)",
                Some(29),
            ),
        ];

        for (input, expected) in test_cases {
            assert_eq!(find_fail_start(input), expected);
        }
    }

#[test]
fn test_escape_sequence() {
        assert!(has_escape_sequence("\u{1b}[0m"));
    }

#[test]
fn test_colors() {
        let logs = concat_lines(&[
            "\n",
            "2024-05-11T20:44:13.9945728Z \u{1b}[2K\u{1b}[1G\u{1b}[2m$ jest ./src --color --ci --shard=1/2\u{1b}[22m\n",
            "2024-05-11T20:45:16.0032874Z \u{1b}[0m\u{1b}[7m\u{1b}[1m\u{1b}[31m FAIL \u{1b}[39m\u{1b}[22m\u{1b}[27m\u{1b}[0m \u{1b}[2msrc/\u{1b}[22m\u{1b}[1mtest2.test.ts\u{1b}[22m (\u{1b}[0m\u{1b}[1m\u{1b}[41m61.458 s\u{1b}[49m\u{1b}[22m\u{1b}[0m)\n",
            "2024-05-11T20:45:16.0034300Z   test2\n",
            "2024-05-11T20:45:16.0037347Z     \u{1b}[32m✓\u{1b}[39m \u{1b}[2msucceeds (1 ms)\u{1b}[22m\n",
            "2024-05-11T20:45:16.0038258Z     \u{1b}[31m✕\u{1b}[39m \u{1b}[2mfails (2 ms)\u{1b}[22m\n",
            "2024-05-11T20:45:16.0039034Z     \u{1b}[32m✓\u{1b}[39m \u{1b}[2mfoo (60001 ms)\u{1b}[22m\n",
            "2024-05-11T20:45:16.0039463Z \n",
            "2024-05-11T20:45:16.0039981Z \u{1b}[1m\u{1b}[31m  \u{1b}[1m● \u{1b}[22m\u{1b}[1mtest2 › fails\u{1b}[39m\u{1b}[22m\n",
            "2024-05-11T20:45:16.0040506Z \n",
            "2024-05-11T20:45:16.0041462Z     \u{1b}[2mexpect(\u{1b}[22m\u{1b}[31mreceived\u{1b}[39m\u{1b}[2m).\u{1b}[22mtoBe\u{1b}[2m(\u{1b}[22m\u{1b}[32mexpected\u{1b}[39m\u{1b}[2m) // Object.is equality\u{1b}[22m\n",
            "2024-05-11T20:45:16.0045857Z \n",
            "2024-05-11T20:45:16.0046210Z     Expected: \u{1b}[32mfalse\u{1b}[39m\n",
            "2024-05-11T20:45:16.0046774Z     Received: \u{1b}[31mtrue\u{1b}[39m\n",
            "2024-05-11T20:45:16.0047256Z \u{1b}[2m\u{1b}[22m\n",
            "2024-05-11T20:45:16.0047765Z \u{1b}[2m    \u{1b}[0m \u{1b}[90m  5 |\u{1b}[39m\u{1b}[0m\u{1b}[22m\n",
            "2024-05-11T20:45:16.0048791Z \u{1b}[2m    \u{1b}[0m \u{1b}[90m  6 |\u{1b}[39m   it(\u{1b}[32m\"fails\"\u{1b}[39m\u{1b}[33m,\u{1b}[39m () \u{1b}[33m=>\u{1b}[39m {\u{1b}[0m\u{1b}[22m\n",
            "2024-05-11T20:45:16.0051048Z \u{1b}[2m    \u{1b}[0m\u{1b}[31m\u{1b}[1m>\u{1b}[22m\u{1b}[2m\u{1b}[39m\u{1b}[90m  7 |\u{1b}[39m     expect(\u{1b}[36mtrue\u{1b}[39m)\u{1b}[33m.\u{1b}[39mtoBe(\u{1b}[36mfalse\u{1b}[39m)\u{1b}[33m;\u{1b}[39m\u{1b}[0m\u{1b}[22m\n",
            "2024-05-11T20:45:16.0052427Z \u{1b}[2m    \u{1b}[0m \u{1b}[90m    |\u{1b}[39m                  \u{1b}[31m\u{1b}[1m^\u{1b}[22m\u{1b}[2m\u{1b}[39m\u{1b}[0m\u{1b}[22m\n",
            "2024-05-11T20:45:16.0053352Z \u{1b}[2m    \u{1b}[0m \u{1b}[90m  8 |\u{1b}[39m   })\u{1b}[33m;\u{1b}[39m\u{1b}[0m\u{1b}[22m\n",
            "2024-05-11T20:45:16.0054060Z \u{1b}[2m    \u{1b}[0m \u{1b}[90m  9 |\u{1b}[39m\u{1b}[0m\u{1b}[22m\n",
            "2024-05-11T20:45:16.0055164Z \u{1b}[2m    \u{1b}[0m \u{1b}[90m 10 |\u{1b}[39m   it(\u{1b}[32m\"foo\"\u{1b}[39m\u{1b}[33m,\u{1b}[39m \u{1b}[36masync\u{1b}[39m () \u{1b}[33m=>\u{1b}[39m {\u{1b}[0m\u{1b}[22m\n",
            "2024-05-11T20:45:16.0056008Z \u{1b}[2m\u{1b}[22m\n",
            "2024-05-11T20:45:16.0057064Z \u{1b}[2m      \u{1b}[2mat Object.<anonymous> (\u{1b}[22m\u{1b}[2m\u{1b}[0m\u{1b}[36msrc/test2.test.ts\u{1b}[39m\u{1b}[0m\u{1b}[2m:7:18)\u{1b}[22m\u{1b}[2m\u{1b}[22m\n",
            "2024-05-11T20:45:16.0057817Z \n",
            "2024-05-11T20:45:16.0064933Z \u{1b}[1mTest Suites: \u{1b}[22m\u{1b}[1m\u{1b}[31m1 failed\u{1b}[39m\u{1b}[22m, 1 total\n",
            "2024-05-11T20:45:16.0065943Z \u{1b}[1mTests:       \u{1b}[22m\u{1b}[1m\u{1b}[31m1 failed\u{1b}[39m\u{1b}[22m, \u{1b}[1m\u{1b}[32m2 passed\u{1b}[39m\u{1b}[22m, 3 total\n",
            "2024-05-11T20:45:16.0066489Z \u{1b}[1mSnapshots:   \u{1b}[22m0 total\n",
            "2024-05-11T20:45:16.0066847Z \u{1b}[1mTime:\u{1b}[22m        61.502 s\n",
            "2024-05-11T20:45:16.0067359Z \u{1b}[2mRan all test suites\u{1b}[22m\u{1b}[2m matching \u{1b}[22m/.\\/src/i\u{1b}[2m.\u{1b}[22m\n",
            "        ",
        ]);

        let failing_tests = JestLogParser::parse(&logs);
        assert_eq!(
            failing_tests,
            vec![CheckError {
                path: "src/test2.test.ts".to_string(),
                lines: vec![
                    "\u{1b}[0m\u{1b}[7m\u{1b}[1m\u{1b}[31m FAIL \u{1b}[39m\u{1b}[22m\u{1b}[27m\u{1b}[0m \u{1b}[2msrc/\u{1b}[22m\u{1b}[1mtest2.test.ts\u{1b}[22m (\u{1b}[0m\u{1b}[1m\u{1b}[41m61.458 s\u{1b}[49m\u{1b}[22m\u{1b}[0m)".to_string(),
                    "  test2".to_string(),
                    "    \u{1b}[32m✓\u{1b}[39m \u{1b}[2msucceeds (1 ms)\u{1b}[22m".to_string(),
                    "    \u{1b}[31m✕\u{1b}[39m \u{1b}[2mfails (2 ms)\u{1b}[22m".to_string(),
                    "    \u{1b}[32m✓\u{1b}[39m \u{1b}[2mfoo (60001 ms)\u{1b}[22m".to_string(),
                    "".to_string(),
                    "\u{1b}[1m\u{1b}[31m  \u{1b}[1m● \u{1b}[22m\u{1b}[1mtest2 › fails\u{1b}[39m\u{1b}[22m".to_string(),
                    "".to_string(),
                    "    \u{1b}[2mexpect(\u{1b}[22m\u{1b}[31mreceived\u{1b}[39m\u{1b}[2m).\u{1b}[22mtoBe\u{1b}[2m(\u{1b}[22m\u{1b}[32mexpected\u{1b}[39m\u{1b}[2m) // Object.is equality\u{1b}[22m".to_string(),
                    "".to_string(),
                    "    Expected: \u{1b}[32mfalse\u{1b}[39m".to_string(),
                    "    Received: \u{1b}[31mtrue\u{1b}[39m".to_string(),
                    "\u{1b}[2m\u{1b}[22m".to_string(),
                    "\u{1b}[2m    \u{1b}[0m \u{1b}[90m  5 |\u{1b}[39m\u{1b}[0m\u{1b}[22m".to_string(),
                    "\u{1b}[2m    \u{1b}[0m \u{1b}[90m  6 |\u{1b}[39m   it(\u{1b}[32m\"fails\"\u{1b}[39m\u{1b}[33m,\u{1b}[39m () \u{1b}[33m=>\u{1b}[39m {\u{1b}[0m\u{1b}[22m".to_string(),
                    "\u{1b}[2m    \u{1b}[0m\u{1b}[31m\u{1b}[1m>\u{1b}[22m\u{1b}[2m\u{1b}[39m\u{1b}[90m  7 |\u{1b}[39m     expect(\u{1b}[36mtrue\u{1b}[39m)\u{1b}[33m.\u{1b}[39mtoBe(\u{1b}[36mfalse\u{1b}[39m)\u{1b}[33m;\u{1b}[39m\u{1b}[0m\u{1b}[22m".to_string(),
                    "\u{1b}[2m    \u{1b}[0m \u{1b}[90m    |\u{1b}[39m                  \u{1b}[31m\u{1b}[1m^\u{1b}[22m\u{1b}[2m\u{1b}[39m\u{1b}[0m\u{1b}[22m".to_string(),
                    "\u{1b}[2m    \u{1b}[0m \u{1b}[90m  8 |\u{1b}[39m   })\u{1b}[33m;\u{1b}[39m\u{1b}[0m\u{1b}[22m".to_string(),
                    "\u{1b}[2m    \u{1b}[0m \u{1b}[90m  9 |\u{1b}[39m\u{1b}[0m\u{1b}[22m".to_string(),
                    "\u{1b}[2m    \u{1b}[0m \u{1b}[90m 10 |\u{1b}[39m   it(\u{1b}[32m\"foo\"\u{1b}[39m\u{1b}[33m,\u{1b}[39m \u{1b}[36masync\u{1b}[39m () \u{1b}[33m=>\u{1b}[39m {\u{1b}[0m\u{1b}[22m".to_string(),
                    "\u{1b}[2m\u{1b}[22m".to_string(),
                    "\u{1b}[2m      \u{1b}[2mat Object.<anonymous> (\u{1b}[22m\u{1b}[2m\u{1b}[0m\u{1b}[36msrc/test2.test.ts\u{1b}[39m\u{1b}[0m\u{1b}[2m:7:18)\u{1b}[22m\u{1b}[2m\u{1b}[22m".to_string(),
                ]
            },]
        );
    }

#[test]
fn test_more_colors() {
        let logs = concat_lines(&[
            "\n",
            "2024-05-29T08:34:09.8655201Z   \u{1b}[1m\u{1b}[31m\u{1b}[7mFAIL\u{1b}[27m\u{1b}[39m\u{1b}[22m src/a.spec.tsx (\u{1b}[31m\u{1b}[7m14728 ms\u{1b}[27m\u{1b}[39m)\n",
            "2024-05-29T08:34:09.8656607Z     utilityFunction\n",
            "2024-05-29T08:34:09.8658244Z       \u{1b}[31m✕\u{1b}[39m should perform action correctly (29 ms)\n",
            "2024-05-29T08:34:11.2518625Z ##[group]\u{1b}[1m\u{1b}[32m\u{1b}[7mPASS\u{1b}[27m\u{1b}[39m\u{1b}[22m src/FeatureSection.spec.tsx (\u{1b}[31m\u{1b}[7m44752 ms\u{1b}[27m\u{1b}[39m)\n",
            "2024-05-29T08:37:56.8027075Z \u{1b}[1mSummary of all failing tests\u{1b}[22m\n",
            "2024-05-29T08:37:56.8042690Z \u{1b}[0m\u{1b}[7m\u{1b}[1m\u{1b}[31m FAIL \u{1b}[39m\u{1b}[22m\u{1b}[27m\u{1b}[0m \u{1b}[2mpackages/foo/src/\u{1b}[22m\u{1b}[1ma.spec.tsx\u{1b}[22m (\u{1b}[0m\u{1b}[1m\u{1b}[41m14.728 s\u{1b}[49m\u{1b}[22m\u{1b}[0m)\n",
            "2024-05-29T08:37:56.8045558Z \u{1b}[1m\u{1b}[31m  \u{1b}[1m● \u{1b}[22m\u{1b}[1mutilityFunction › should perform action correctly\u{1b}[39m\u{1b}[22m\n",
            "2024-05-29T08:37:56.8046501Z\n",
            "2024-05-29T08:37:56.8046955Z     TypeError: Cannot read properties of undefined (reading 'property')\n",
            "2024-05-29T08:37:56.8047659Z \u{1b}[2m\u{1b}[22m\n",
            "2024-05-29T08:37:56.8048616Z \u{1b}[2m    \u{1b}[0m \u{1b}[90m 228 |\u{1b}[39m               \u{1b}[90m// To handle undefined properties safely\u{1b}[39m\u{1b}[22m\n",
            "2024-05-29T08:37:56.8049807Z \u{1b}[2m     \u{1b}[90m 229 |\u{1b}[39m               isEnabled\u{1b}[33m:\u{1b}[39m\u{1b}[22m\n",
            "2024-05-29T08:37:56.8051465Z \u{1b}[2m    \u{1b}[31m\u{1b}[1m>\u{1b}[22m\u{1b}[2m\u{1b}[39m\u{1b}[90m 230 |\u{1b}[39m                 object\u{1b}[33m.\u{1b}[39mproperty\u{1b}[33m.\u{1b}[39mmode \u{1b}[33m===\u{1b}[39m \u{1b}[32m'active'\u{1b}[39m\u{1b}[33m,\u{1b}[39m\u{1b}[22m\n",
            "2024-05-29T08:37:56.8052724Z \u{1b}[2m     \u{1b}[90m     |\u{1b}[39m                                      \u{1b}[31m\u{1b}[1m^\u{1b}[22m\u{1b}[2m\u{1b}[39m\u{1b}[22m\n",
            "2024-05-29T08:37:56.8053954Z \u{1b}[2m     \u{1b}[90m 231 |\u{1b}[39m               \u{1b}[33m...\u{1b}[39m(isEnabled \u{1b}[33m?\u{1b}[39m { isEnabled } \u{1b}[33m:\u{1b}[39m {})\u{1b}[33m,\u{1b}[39m\u{1b}[22m\n",
            "2024-05-29T08:37:56.8055365Z \u{1b}[2m     \u{1b}[90m 232 |\u{1b}[39m             }\u{1b}[33m;\u{1b}[39m\u{1b}[22m\n",
            "2024-05-29T08:37:56.8056071Z \u{1b}[2m     \u{1b}[90m 233 |\u{1b}[39m           })\u{1b}[33m,\u{1b}[39m\u{1b}[0m\u{1b}[22m\n",
            "2024-05-29T08:37:56.8056615Z \u{1b}[2m\u{1b}[22m\n",
            "2024-05-29T08:37:56.8062690Z \u{1b}[2m      \u{1b}[2mat property (\u{1b}[22m\u{1b}[2msrc/fileA.ts\u{1b}[2m:230:38)\u{1b}[22m\u{1b}[2m\u{1b}[22m\n",
            "2024-05-29T08:37:56.8063920Z \u{1b}[2m          at Array.map (<anonymous>)\u{1b}[22m\n",
            "2024-05-29T08:37:56.8065216Z \u{1b}[2m      \u{1b}[2mat map (\u{1b}[22m\u{1b}[2msrc/fileA.ts\u{1b}[2m:200:45)\u{1b}[22m\u{1b}[2m\u{1b}[22m\n",
            "2024-05-29T08:37:56.8067038Z \u{1b}[2m          at Array.reduce (<anonymous>)\u{1b}[22m\n",
            "2024-05-29T08:37:56.8068351Z \u{1b}[2m      \u{1b}[2mat reduce (\u{1b}[22m\u{1b}[2msrc/fileA.ts\u{1b}[2m:196:61)\u{1b}[22m\u{1b}[2m\u{1b}[22m\n",
            "2024-05-29T08:37:56.8118331Z\n",
            "2024-05-29T08:37:56.8118337Z\n",
            "2024-05-29T08:37:56.8125241Z \u{1b}[1mTest Suites: \u{1b}[22m\u{1b}[1m\u{1b}[31m1 failed\u{1b}[39m\u{1b}[22m, \u{1b}[1m\u{1b}[33m1 skipped\u{1b}[39m\u{1b}[22m, \u{1b}[1m\u{1b}[32m100 passed\u{1b}[39m\u{1b}[22m, 100 of 100 total\n",
            "2024-05-29T08:37:56.8127233Z \u{1b}[1mTests:       \u{1b}[22m\u{1b}[1m\u{1b}[31m1 failed\u{1b}[39m\u{1b}[22m, \u{1b}[1m\u{1b}[33m21 skipped\u{1b}[39m\u{1b}[22m, \u{1b}[1m\u{1b}[35m2 todo\u{1b}[39m\u{1b}[22m, \u{1b}[1m\u{1b}[32m100 passed\u{1b}[39m\u{1b}[22m, 100 total\n",
            "            ",
        ]);
        let failing_tests = JestLogParser::parse(&logs);
        assert_eq!(
            failing_tests,
            vec![
                CheckError {
                    path: "src/a.spec.tsx".to_string(),
                    lines: vec![
                        "\u{1b}[1m\u{1b}[31m\u{1b}[7mFAIL\u{1b}[27m\u{1b}[39m\u{1b}[22m src/a.spec.tsx (\u{1b}[31m\u{1b}[7m14728 ms\u{1b}[27m\u{1b}[39m)".to_string(),
                        "  utilityFunction".to_string(),
                        "    \u{1b}[31m✕\u{1b}[39m should perform action correctly (29 ms)".to_string(),
                    ],
                },
                CheckError {
                    path: "packages/foo/src/a.spec.tsx".to_string(),
                    lines: vec![
                        "\u{1b}[0m\u{1b}[7m\u{1b}[1m\u{1b}[31m FAIL \u{1b}[39m\u{1b}[22m\u{1b}[27m\u{1b}[0m \u{1b}[2mpackages/foo/src/\u{1b}[22m\u{1b}[1ma.spec.tsx\u{1b}[22m (\u{1b}[0m\u{1b}[1m\u{1b}[41m14.728 s\u{1b}[49m\u{1b}[22m\u{1b}[0m)".to_string(),
                        "\u{1b}[1m\u{1b}[31m  \u{1b}[1m● \u{1b}[22m\u{1b}[1mutilityFunction › should perform action correctly\u{1b}[39m\u{1b}[22m".to_string(),
                        "".to_string(),
                        "    TypeError: Cannot read properties of undefined (reading 'property')".to_string(),
                        "\u{1b}[2m\u{1b}[22m".to_string(),
                        "\u{1b}[2m    \u{1b}[0m \u{1b}[90m 228 |\u{1b}[39m               \u{1b}[90m// To handle undefined properties safely\u{1b}[39m\u{1b}[22m".to_string(),
                        "\u{1b}[2m     \u{1b}[90m 229 |\u{1b}[39m               isEnabled\u{1b}[33m:\u{1b}[39m\u{1b}[22m".to_string(),
                        "\u{1b}[2m    \u{1b}[31m\u{1b}[1m>\u{1b}[22m\u{1b}[2m\u{1b}[39m\u{1b}[90m 230 |\u{1b}[39m                 object\u{1b}[33m.\u{1b}[39mproperty\u{1b}[33m.\u{1b}[39mmode \u{1b}[33m===\u{1b}[39m \u{1b}[32m'active'\u{1b}[39m\u{1b}[33m,\u{1b}[39m\u{1b}[22m".to_string(),
                        "\u{1b}[2m     \u{1b}[90m     |\u{1b}[39m                                      \u{1b}[31m\u{1b}[1m^\u{1b}[22m\u{1b}[2m\u{1b}[39m\u{1b}[22m".to_string(),
                        "\u{1b}[2m     \u{1b}[90m 231 |\u{1b}[39m               \u{1b}[33m...\u{1b}[39m(isEnabled \u{1b}[33m?\u{1b}[39m { isEnabled } \u{1b}[33m:\u{1b}[39m {})\u{1b}[33m,\u{1b}[39m\u{1b}[22m".to_string(),
                        "\u{1b}[2m     \u{1b}[90m 232 |\u{1b}[39m             }\u{1b}[33m;\u{1b}[39m\u{1b}[22m".to_string(),
                        "\u{1b}[2m     \u{1b}[90m 233 |\u{1b}[39m           })\u{1b}[33m,\u{1b}[39m\u{1b}[0m\u{1b}[22m".to_string(),
                        "\u{1b}[2m\u{1b}[22m".to_string(),
                        "\u{1b}[2m      \u{1b}[2mat property (\u{1b}[22m\u{1b}[2msrc/fileA.ts\u{1b}[2m:230:38)\u{1b}[22m\u{1b}[2m\u{1b}[22m".to_string(),
                        "\u{1b}[2m          at Array.map (<anonymous>)\u{1b}[22m".to_string(),
                        "\u{1b}[2m      \u{1b}[2mat map (\u{1b}[22m\u{1b}[2msrc/fileA.ts\u{1b}[2m:200:45)\u{1b}[22m\u{1b}[2m\u{1b}[22m".to_string(),
                        "\u{1b}[2m          at Array.reduce (<anonymous>)\u{1b}[22m".to_string(),
                        "\u{1b}[2m      \u{1b}[2mat reduce (\u{1b}[22m\u{1b}[2msrc/fileA.ts\u{1b}[2m:196:61)\u{1b}[22m\u{1b}[2m\u{1b}[22m".to_string(),
                    ],
                },
            ]
        );
    }

#[test]
fn test_find_next_non_ansi_char() {
        let str = " \u{1b}[32m\u{1b}[31m ";
        let start_col = 1;
        assert_eq!(find_next_non_ansi_char(str, start_col), Some(' '));
    }
