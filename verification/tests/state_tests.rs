use nmea_player::datetime::DateTime;
use nmea_player::decode::NavUpdate;
use nmea_player::state::NavigationState;

#[test]
fn default_equals_new() {
    assert_eq!(NavigationState::default(), NavigationState::new());
}

#[test]
fn updates_touch_only_their_fields() {
    let mut s = NavigationState::new();
    let before = s;
    s.apply(&NavUpdate::Depth {
        depth_umeters: 4_200_000,
    });
    assert_eq!(s.depth_umeters, 4_200_000);
    assert_eq!(s.lat_udeg, before.lat_udeg);
    assert_eq!(s.utc, before.utc);

    s.apply(&NavUpdate::Position {
        lat_udeg: 1,
        lon_udeg: -2,
    });
    assert_eq!(s.lat_udeg, 1);
    assert_eq!(s.lon_udeg, -2);
    assert_eq!(s.depth_umeters, 4_200_000);

    s.apply(&NavUpdate::CourseSpeed {
        cog_udeg: 359_500_000,
        sog_uknots: 100_000,
    });
    s.apply(&NavUpdate::Wind {
        awa_udeg: -31_700_000,
        aws_uknots: 500_000,
    });
    let dt = DateTime {
        year: 2021,
        month: 2,
        day: 22,
        hour: 23,
        minute: 46,
        second: 26,
    };
    s.apply(&NavUpdate::Time { dt });
    assert_eq!(s.cog_udeg, 359_500_000);
    assert_eq!(s.sog_uknots, 100_000);
    assert_eq!(s.awa_udeg, -31_700_000);
    assert_eq!(s.aws_uknots, 500_000);
    assert_eq!(s.utc, dt);
}

#[test]
fn ignore_changes_nothing() {
    let mut s = NavigationState::new();
    let before = s;
    s.apply(&NavUpdate::Ignore);
    assert_eq!(s, before);
}
