use ghtool::record::{CheckError, TscError};
use ghtool::tsc::TscLogParser;

fn concat_lines(parts: &[&str]) -> String {
    parts.concat()
}

#[test]
fn tsc_test_extract_failing_files_1() {
        let logs = concat_lines(&[
            "\n",
            "2023-06-26T16:57:36.5365262Z ##[error]src/index.ts(3,21): error TS2769: No overload matches this call.\n",
            "2023-06-26T16:57:36.5460952Z   Overload 1 of 2, '(object: any, showHidden?: boolean | undefined, depth?: number | null | undefined, color?: boolean | undefined): string', gave the following error.\n",
            "2023-06-26T16:57:36.5462190Z     Argument of type '\"test\"' is not assignable to parameter of type 'boolean | undefined'.\n",
            "2023-06-26T16:57:36.5465097Z ##[error]src/index.ts(10,3): error TS2322: Type 'number' is not assignable to type 'string'.\n",
            "2023-06-26T16:57:36.5533457Z ##[error]Process completed with exit code 2.",
        ]);

        let failing_files = TscLogParser::parse(&logs);
        assert_eq!(
            failing_files,
            vec![
                TscError {
                    path: "src/index.ts".to_string(),
                    lines: vec![
                        "src/index.ts(3,21): error TS2769: No overload matches this call.".to_string(),
                        "  Overload 1 of 2, '(object: any, showHidden?: boolean | undefined, depth?: number | null | undefined, color?: boolean | undefined): string', gave the following error.".to_string(),
                        "    Argument of type '\"test\"' is not assignable to parameter of type 'boolean | undefined'.".to_string(),
                    ]
                },
                TscError {
                    path: "src/index.ts".to_string(),
                    lines: vec![
                        "src/index.ts(10,3): error TS2322: Type 'number' is not assignable to type 'string'.".to_string(),
                    ]
                },
            ]
        );
    }

#[test]
fn tsc_test_extract_failing_files_2() {
        let logs = concat_lines(&[
            "\n",
            "2023-06-26T16:57:36.5465097Z ##[error]src/index.ts(10,3): error TS2322: Type 'number' is not assignable to type 'string'.\n",
            "2023-06-26T16:57:36.5365262Z ##[error]src/index.ts(3,21): error TS2769: No overload matches this call.\n",
            "2023-06-26T16:57:36.5460952Z   Overload 1 of 2, '(object: any, showHidden?: boolean | undefined, depth?: number | null | undefined, color?: boolean | undefined): string', gave the following error.\n",
            "2023-06-26T16:57:36.5462190Z     Argument of type '\"test\"' is not assignable to parameter of type 'boolean | undefined'.",
        ]);

        let failing_files = TscLogParser::parse(&logs);
        assert_eq!(
            failing_files,
            vec![
                TscError {
                    path: "src/index.ts".to_string(),
                    lines: vec![
                        "src/index.ts(10,3): error TS2322: Type 'number' is not assignable to type 'string'.".to_string(),
                    ]
                },
                TscError {
                    path: "src/index.ts".to_string(),
                    lines: vec![
                        "src/index.ts(3,21): error TS2769: No overload matches this call.".to_string(),
                        "  Overload 1 of 2, '(object: any, showHidden?: boolean | undefined, depth?: number | null | undefined, color?: boolean | undefined): string', gave the following error.".to_string(),
                        "    Argument of type '\"test\"' is not assignable to parameter of type 'boolean | undefined'.".to_string(),
                    ]
                },
            ]
        );
    }

#[test]
fn tsc_test_extract_failing_files_3() {
        let logs = concat_lines(&[
            "\n",
            "2023-06-21T14:10:03.3218056Z ##[error]\u{1b}[32m@owner/package:typecheck: \u{1b}[0msrc/index.ts(63,7): error TS1117: An object literal cannot have multiple properties with the same name.",
        ]);

        let failing_files = TscLogParser::parse(&logs);
        assert_eq!(failing_files, vec![
            TscError {
                path: "src/index.ts".to_string(),
                lines: vec![
                    "\u{1b}[32m@owner/package:typecheck: \u{1b}[0msrc/index.ts(63,7): error TS1117: An object literal cannot have multiple properties with the same name.".to_string()
                ],
            },
        ]);
    }

#[test]
fn test_extract_failing_files_4() {
        let logs = concat_lines(&[
            "\n",
            "2023-06-27T08:32:59.2543883Z ##[error]\u{1b}[34m@project:typecheck: \u{1b}[0msrc/components/Component.spec.tsx(58,8): error TS2739: Type '{ foo: string; }' is missing the following properties from type 'Props': bar\n",
            "2023-06-27T08:33:50.2166735Z \u{1b}[34m@project:typecheck: \u{1b}[0m\u{1b}[41m\u{1b}[30mâ€‰ELIFECYCLEâ€‰\u{1b}[39m\u{1b}[49m \u{1b}[31mCommand failed with exit code 1.\u{1b}[39m\n",
            "2023-06-27T08:33:50.2437013Z \u{1b}[91m\u{1b}[34m@project:typecheck: \u{1b}[0mERROR: command finished with error: command (/home/runner) pnpm run typecheck exited (1)\u{1b}[0m\n",
            "2023-06-27T08:33:50.3894539Z \u{1b}[34mproject:typecheck: \u{1b}[0m\u{1b}[41m\u{1b}[30mâ€‰ELIFECYCLEâ€‰\u{1b}[39m\u{1b}[49m \u{1b}[31mCommand failed.\u{1b}[39m\n",
            "2023-06-27T08:33:50.3968735Z \u{1b}[91mcommand (/home/runner) pnpm run typecheck exited (1)\u{1b}[0m\n",
            "2023-06-27T08:33:50.3983800Z \n",
            "2023-06-27T08:33:50.3984922Z  Tasks:    145 successful, 147 total\n",
            "2023-06-27T08:33:50.3985487Z Cached:    73 cached, 147 total\n",
            "2023-06-27T08:33:50.3985812Z   Time:    3m7.006s",
        ]);

        let failing_files = TscLogParser::parse(&logs);
        assert_eq!(failing_files, vec![
            CheckError {
                path: "src/components/Component.spec.tsx".to_string(),
                lines: vec![
                    "\u{1b}[34m@project:typecheck: \u{1b}[0msrc/components/Component.spec.tsx(58,8): error TS2739: Type '{ foo: string; }' is missing the following properties from type 'Props': bar".to_string(),
                ],
            },
        ]);
    }
