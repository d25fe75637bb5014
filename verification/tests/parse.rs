use arg::Args;

fn setup_args<'a>(args: Vec<&str>) -> Args<'a> {
    Args::new(args.into_iter().map(String::from).collect())
}

#[test]
fn eargf_working() {
    let mut aflag = false;
    let mut bflag = false;
    let mut bvalue = String::new();

    {
        let mut args =
            setup_args(vec!["program", "-a", "-b", "value"]).with_cb(|args, flag| match flag {
                'a' => aflag = true,
                'b' => {
                    bflag = true;
                    bvalue = args.eargf().to_string();
                }
                _ => { /* Usually usage() */ }
            });

        args.parse();
    }

    assert!(aflag);
    assert!(bflag);
    assert_eq!(bvalue, "value");
}

#[test]
#[should_panic]
fn eargf_panic() {
    let mut args = setup_args(vec!["program", "-a", "-b"]).with_cb(|args, flag| match flag {
        'a' => {}
        'b' => {
            let _ = args.eargf().to_string();
        }
        _ => { /* Usually usage() */ }
    });

    args.parse();
}

#[test]
fn argf_working() {
    let mut aflag = false;
    let mut bflag = false;
    let mut bvalue = None;

    {
        let mut args =
            setup_args(vec!["program", "-a", "-b", "value"]).with_cb(|args, flag| match flag {
                'a' => aflag = true,
                'b' => {
                    bflag = true;
                    bvalue = args.argf().map(String::from);
                }
                _ => { /* Usually usage() */ }
            });

        args.parse();
    }

    assert!(aflag);
    assert!(bflag);
    assert_eq!(bvalue, Some("value".to_string()));
}

#[test]
fn argf_none() {
    let mut aflag = false;
    let mut bflag = false;
    let mut bvalue = None;

    {
        let mut args = setup_args(vec!["program", "-a", "-b"]).with_cb(|args, flag| match flag {
            'a' => aflag = true,
            'b' => {
                bflag = true;
                bvalue = args.argf().map(String::from);
            }
            _ => { /* Usually usage() */ }
        });

        args.parse();
    }

    assert!(aflag);
    assert!(bflag);
    assert_eq!(bvalue, None);
}

#[test]
fn remaining() {
    let mut aflag = false;
    let mut bflag = false;
    let mut bvalue = None;
    let remaining;

    {
        let mut args =
            setup_args(vec!["program", "-a", "-b", "value", "imhere"]).with_cb(|args, flag| {
                match flag {
                    'a' => aflag = true,
                    'b' => {
                        bflag = true;
                        bvalue = args.argf().map(String::from);
                    }
                    _ => { /* Usually usage() */ }
                }
            });

        remaining = args.parse();
    }

    assert!(aflag);
    assert!(bflag);
    assert_eq!(bvalue, Some("value".to_string()));

    assert!(remaining.len() == 1);
    assert!(remaining[0] == "imhere")
}

#[test]
fn empty() {
    let mut args = setup_args(vec!["program"]).with_cb(|_args, flag| match flag {
        'a' => {}
        'b' => {}
        _ => {}
    });

    let remaining = args.parse();
    assert!(remaining.is_empty());
    assert!(args.argv0() == "program");
}
