use jx3sim::cast_gate::{pick_rank, CastFacts, CastNeeds, RejectReason};
use jx3sim::model::Stance;
use jx3sim::player::Player;

fn needs(id: u32) -> CastNeeds {
    CastNeeds { skill_id: id, requires_talent: None, stance: Stance::Any, requires_combo: false, grants_combo: false, rage_cost: 0 }
}

fn facts() -> CastFacts {
    CastFacts {
        removable_buff: true,
        stance: Stance::Shield,
        zhan_jue: false,
        chang_qu_stacks: 0,
        combo_ready: false,
        combo_pending: false,
        kuang_jue: false,
    }
}

fn check(p: &Player, n: CastNeeds, f: CastFacts) -> Option<RejectReason> {
    let r = p.reject_reason(&n, &f);
    assert_eq!(p.can_cast(&n, &f), r.is_none());
    r
}

#[test]
fn each_gate_with_its_message() {
    let mut p = Player::new(0, vec![], vec![]);
    assert_eq!(check(&p, needs(1), facts()), None);
    let r = check(&p, needs(90001), CastFacts { removable_buff: false, ..facts() }).unwrap();
    assert_eq!(r.message(), "无可移除的气劲");
    let r = check(&p, CastNeeds { requires_talent: Some(14838), ..needs(1) }, facts()).unwrap();
    assert_eq!(r.message(), "需要奇穴 14838");
    let r = check(&p, CastNeeds { stance: Stance::Blade, ..needs(1) }, facts()).unwrap();
    assert_eq!(r.message(), "需要擎刀体态（当前擎盾）");
    let r = check(&p, CastNeeds { stance: Stance::NotWall, ..needs(1) }, CastFacts { stance: Stance::Wall, ..facts() }).unwrap();
    assert_eq!(r.message(), "需要非盾墙体态（当前盾墙）");
    assert_eq!(check(&p, CastNeeds { stance: Stance::NotWall, ..needs(1) }, facts()), None);
    let r = check(&p, needs(13040), CastFacts { zhan_jue: true, ..facts() }).unwrap();
    assert_eq!(r.message(), "战绝：仅可释放苍雪刀招式");
    assert_eq!(check(&p, needs(13052), CastFacts { zhan_jue: true, ..facts() }), None);
    p.set_block_value(19);
    let r = check(&p, needs(15072), facts()).unwrap();
    assert_eq!(r.message(), "格挡值不足（需要20，当前19）");
    p.set_rage(10);
    let r = check(&p, CastNeeds { rage_cost: 15, ..needs(1) }, CastFacts { kuang_jue: true, ..facts() }).unwrap();
    assert_eq!(r.message(), "怒气不足（需要15，当前10，狂绝=true）");
    let r = check(&p, CastNeeds { requires_combo: true, ..needs(1) }, facts()).unwrap();
    assert_eq!(r.message(), "需要前置连招");
    let r = check(&p, CastNeeds { grants_combo: true, ..needs(1) }, CastFacts { combo_pending: true, ..facts() }).unwrap();
    assert_eq!(r.message(), "连招进行中，无法重复释放");
}

#[test]
fn wu_hai_needs_six_stacks() {
    let p = Player::new(0, vec![], vec![]);
    let n = needs(90010);
    let r = check(&p, n, CastFacts { chang_qu_stacks: 5, ..facts() }).unwrap();
    assert_eq!(r, RejectReason::ShortChangQu(5));
    assert_eq!(r.message(), "长驱万里层数不足（需要6，当前5）");
    assert_eq!(check(&p, n, CastFacts { chang_qu_stacks: 6, ..facts() }), None);
}

#[test]
fn picks_combo_follow_ups_first() {
    assert_eq!(pick_rank(&vec![(false, true), (true, true), (false, true)]), Some(1));
    assert_eq!(pick_rank(&vec![(false, true), (true, false), (false, true)]), Some(2));
    assert_eq!(pick_rank(&vec![(false, false), (true, false)]), None);
    assert_eq!(pick_rank(&vec![]), None);
}

#[test]
fn channel_ticks_follow_the_gcd_by_default() {
    let p = Player::new(0, vec![], vec![]);
    assert_eq!(p.channel_ticks(13048, 64, 16, &vec![(24, true)], 0, None), (1, 4));
    assert_eq!(p.channel_ticks(13048, 64, 16, &vec![(24, true)], 0, Some(10)), (4, 4));
    assert_eq!(p.channel_ticks(13048, 64, 16, &vec![(24, true)], 0, Some(0)), (1, 4));
    assert_eq!(p.channel_ticks(13048, 64, 16, &vec![(48, false), (24, true)], 0, None), (3, 4));
    // Haste 210078 halves every hasted frame count.
    assert_eq!(p.channel_ticks(13048, 64, 16, &vec![(24, true)], 210078, None), (1, 4));
    assert_eq!(p.channel_ticks(13048, 64, 16, &vec![(24, false)], 210078, None), (3, 4));
    let q = Player::new(0, vec![], vec![8007]);
    assert_eq!(q.channel_ticks(13048, 64, 16, &vec![], 0, None), (5, 5));
    assert_eq!(q.channel_ticks(13000, 64, 16, &vec![], 0, None), (4, 4));
    assert_eq!(p.channel_ticks(13048, 64, 0, &vec![(24, true)], 0, None), (0, 0));
}
